//! Message log: author-signed messages, ordered by `(timestamp, message
//! id)`, with size and retention limits enforced on every merge.
//!
//! A message's identity is the fast hash of its signature.  `apply_delta`
//! appends the incoming messages, sorts the log by the total order
//! `(timestamp, id)`, drops messages that are oversized or whose author is
//! no longer the owner or a member, and then trims the oldest entries down
//! to the retention bound.  The result depends only on which messages have
//! been seen, not on their arrival order — that is what makes replicas
//! converge.

use vstd::prelude::*;

use crate::crypto::{fast_hash_bytes, fast_hash_spec, sig_of, sig_valid, sign_bytes, vk_of_sk};
use crate::errors::RoomError;
use crate::member::{
    am_id, copy_bytes, copy_string, has_member_id, id_bytes, id_to_bytes, idx_first,
    lemma_idx_first, u64_le_bytes, u64_le_seq, AuthorizedMemberV, MemberId, Members,
};
use crate::seqs::{
    lemma_filter_all, lemma_filter_concat, lemma_filter_multiset, lemma_filter_push,
    lemma_filter_subset_contains,
};
use vstd::multiset::Multiset;
use vstd::string::*;

verus! {

/// Stable identity of a message: the fast hash of its signature.
#[derive(Clone, Copy, PartialEq, Eq, Structural, Hash, PartialOrd, Ord, Debug)]
pub struct MessageId(pub i64);

/// One chat message as authored.
#[derive(Clone, Debug, PartialEq)]
pub struct MessageV1 {
    /// Id of the room owner the message was posted under.
    pub owner_member_id: MemberId,
    /// Id of the authoring member (or owner).
    pub author: MemberId,
    /// Author-supplied timestamp, milliseconds.
    pub time: u64,
    /// Message text.
    pub content: String,
}

/// Mathematical value of a `MessageV1`.
pub ghost struct MessageVV {
    pub owner_member_id: MemberId,
    pub author: MemberId,
    pub time: u64,
    pub content: Seq<char>,
}

impl View for MessageV1 {
    type V = MessageVV;

    open spec fn view(&self) -> MessageVV {
        MessageVV {
            owner_member_id: self.owner_member_id,
            author: self.author,
            time: self.time,
            content: self.content@,
        }
    }
}

/// A message together with its author's signature.
#[derive(Clone, Debug, PartialEq)]
pub struct AuthorizedMessageV1 {
    pub message: MessageV1,
    /// ed25519 signature (64 bytes) by the author's signing key.
    pub signature: Vec<u8>,
}

/// Mathematical value of an `AuthorizedMessageV1`.
pub ghost struct AuthorizedMessageVV {
    pub message: MessageVV,
    pub signature: Seq<u8>,
}

impl View for AuthorizedMessageV1 {
    type V = AuthorizedMessageVV;

    open spec fn view(&self) -> AuthorizedMessageVV {
        AuthorizedMessageVV { message: self.message@, signature: self.signature@ }
    }
}

/// Append-mostly ordered log of authorized messages.
#[derive(Clone, Debug, PartialEq)]
pub struct MessagesV1 {
    pub messages: Vec<AuthorizedMessageV1>,
}

impl View for MessagesV1 {
    type V = Seq<AuthorizedMessageVV>;

    open spec fn view(&self) -> Seq<AuthorizedMessageVV> {
        self.messages@.map_values(|m: AuthorizedMessageV1| m@)
    }
}

// ------------------------------------------------------------------
// Identity and signing payload
// ------------------------------------------------------------------

/// Id of a message: the fast hash of its signature bytes.
pub open spec fn msg_id_of(m: AuthorizedMessageVV) -> MessageId {
    MessageId(fast_hash_spec(m.signature))
}

/// The byte string an author signs to post a message.
pub open spec fn message_msg(m: MessageVV) -> Seq<u8> {
    id_bytes(m.owner_member_id) + id_bytes(m.author) + u64_le_seq(m.time) + vstd::utf8::encode_utf8(
        m.content,
    )
}

/// The exact byte string that is signed to authorize a message.
pub fn message_signing_bytes(m: &MessageV1) -> (r: Vec<u8>)
    ensures
        r@ == message_msg(m@),
{
    let mut out = id_to_bytes(m.owner_member_id);
    let mut part = id_to_bytes(m.author);
    out.append(&mut part);
    let mut time_part = u64_le_bytes(m.time);
    out.append(&mut time_part);
    let mut content_part = m.content.as_str().as_bytes_vec();
    out.append(&mut content_part);
    assert(out@ =~= message_msg(m@));
    out
}

/// Whether a message's signature verifies against a verifying key.
pub open spec fn msg_sig_ok(m: AuthorizedMessageVV, vk: Seq<u8>) -> bool {
    &&& vk.len() == 32
    &&& crate::crypto::vk_parses(vk)
    &&& m.signature.len() == 64
    &&& sig_valid(vk, message_msg(m.message), m.signature)
}

impl MessageV1 {
    /// A field-for-field copy.
    pub fn duplicate(&self) -> (r: MessageV1)
        ensures
            r@ == self@,
    {
        MessageV1 {
            owner_member_id: self.owner_member_id,
            author: self.author,
            time: self.time,
            content: copy_string(&self.content),
        }
    }
}

impl AuthorizedMessageV1 {
    /// Authorize a message: sign its payload with the author's signing key.
    pub fn new(message: MessageV1, signing_key: &[u8]) -> (r: AuthorizedMessageV1)
        requires
            signing_key@.len() == 32,
        ensures
            r@.message == message@,
            r@.signature == sig_of(signing_key@, message_msg(message@)),
            r@.signature.len() == 64,
            sig_valid(vk_of_sk(signing_key@), message_msg(message@), r@.signature),
    {
        let payload = message_signing_bytes(&message);
        let signature = sign_bytes(signing_key, payload.as_slice());
        AuthorizedMessageV1 { message, signature }
    }

    /// Check this message's signature against an alleged author key.
    pub fn validate(&self, verifying_key: &[u8]) -> (r: Result<(), RoomError>)
        ensures
            r is Ok <==> msg_sig_ok(self@, verifying_key@),
            r matches Err(e) ==> e == RoomError::SignatureInvalid,
    {
        if verifying_key.len() != 32 || self.signature.len() != 64 {
            return Err(RoomError::SignatureInvalid);
        }
        let payload = message_signing_bytes(&self.message);
        if crate::crypto::verify_sig_bytes(
            verifying_key,
            payload.as_slice(),
            self.signature.as_slice(),
        ) {
            Ok(())
        } else {
            Err(RoomError::SignatureInvalid)
        }
    }

    /// This message's id.
    pub fn id(&self) -> (r: MessageId)
        ensures
            r == msg_id_of(self@),
    {
        MessageId(fast_hash_bytes(self.signature.as_slice()))
    }

    /// A field-for-field copy.
    pub fn duplicate(&self) -> (r: AuthorizedMessageV1)
        ensures
            r@ == self@,
    {
        AuthorizedMessageV1 {
            message: self.message.duplicate(),
            signature: copy_bytes(&self.signature),
        }
    }
}

// ------------------------------------------------------------------
// Verification
// ------------------------------------------------------------------

/// The check `verify` runs for one message: resolve the author (owner or
/// first registry entry with the author's id) and check the signature.
#[verifier::opaque]
pub open spec fn msg_check(
    members_s: Seq<AuthorizedMemberV>,
    owner_vk: Seq<u8>,
    m: AuthorizedMessageVV,
) -> Option<RoomError> {
    if m.message.author == crate::member::member_id_of(owner_vk) {
        if msg_sig_ok(m, owner_vk) {
            None
        } else {
            Some(RoomError::SignatureInvalid)
        }
    } else {
        let j = idx_first(members_s, m.message.author);
        if j < 0 {
            Some(RoomError::AuthorNotMember)
        } else if !msg_sig_ok(m, members_s[j].member.member_vk) {
            Some(RoomError::SignatureInvalid)
        } else {
            None
        }
    }
}

/// Index of the first message whose check fails, starting at `i`; -1 if all
/// pass.
pub open spec fn msg_first_failing_from(
    members_s: Seq<AuthorizedMemberV>,
    owner_vk: Seq<u8>,
    s: Seq<AuthorizedMessageVV>,
    i: int,
) -> int
    decreases s.len() - i,
{
    if i < 0 || i >= s.len() {
        -1
    } else if msg_check(members_s, owner_vk, s[i]) is Some {
        i
    } else {
        msg_first_failing_from(members_s, owner_vk, s, i + 1)
    }
}

/// The whole log passes verification against a member registry.
pub open spec fn messages_verified(
    members_s: Seq<AuthorizedMemberV>,
    owner_vk: Seq<u8>,
    s: Seq<AuthorizedMessageVV>,
) -> bool {
    forall|i: int| 0 <= i < s.len() ==> #[trigger] msg_check(members_s, owner_vk, s[i]) is None
}

/// `msg_first_failing_from` finds exactly the least failing index at or
/// after `i`.
pub proof fn lemma_msg_first_failing(
    members_s: Seq<AuthorizedMemberV>,
    owner_vk: Seq<u8>,
    s: Seq<AuthorizedMessageVV>,
    i: int,
)
    requires
        0 <= i <= s.len(),
    ensures
        -1 <= msg_first_failing_from(members_s, owner_vk, s, i) < s.len(),
        msg_first_failing_from(members_s, owner_vk, s, i) == -1 <==> forall|k: int|
            i <= k < s.len() ==> #[trigger] msg_check(members_s, owner_vk, s[k]) is None,
        msg_first_failing_from(members_s, owner_vk, s, i) >= 0 ==> i <= msg_first_failing_from(
            members_s,
            owner_vk,
            s,
            i,
        ) < s.len() && msg_check(
            members_s,
            owner_vk,
            s[msg_first_failing_from(members_s, owner_vk, s, i)],
        ) is Some && forall|k: int|
            i <= k < msg_first_failing_from(members_s, owner_vk, s, i) ==> #[trigger] msg_check(
                members_s,
                owner_vk,
                s[k],
            ) is None,
    decreases s.len() - i,
{
    if i < s.len() {
        lemma_msg_first_failing(members_s, owner_vk, s, i + 1);
    }
}

/// If everything before `i` passes and `i` fails, then `i` is the first
/// failing index.
#[verifier::rlimit(50)]
#[verifier::spinoff_prover]
pub proof fn lemma_msg_first_failing_is(
    members_s: Seq<AuthorizedMemberV>,
    owner_vk: Seq<u8>,
    s: Seq<AuthorizedMessageVV>,
    i: int,
)
    requires
        0 <= i < s.len(),
        forall|k: int| 0 <= k < i ==> #[trigger] msg_check(members_s, owner_vk, s[k]) is None,
        msg_check(members_s, owner_vk, s[i]) is Some,
    ensures
        msg_first_failing_from(members_s, owner_vk, s, 0) == i,
{
    lemma_msg_first_failing(members_s, owner_vk, s, 0);
    let f = msg_first_failing_from(members_s, owner_vk, s, 0);
    if f == -1 {
        assert(msg_check(members_s, owner_vk, s[i]) is None);
    } else if f < i {
        assert(msg_check(members_s, owner_vk, s[f]) is None);
        assert(msg_check(members_s, owner_vk, s[f]) is Some);
    } else if f > i {
        assert(msg_check(members_s, owner_vk, s[i]) is None);
    }
}

impl Default for MessagesV1 {
    /// An empty log.
    fn default() -> (r: MessagesV1)
        ensures
            r@ =~= Seq::<AuthorizedMessageVV>::empty(),
    {
        MessagesV1::new()
    }
}

impl MessagesV1 {
    /// A record-for-record copy.
    pub fn duplicate(&self) -> (r: MessagesV1)
        ensures
            r@ == self@,
    {
        let ghost s = self@;
        let n = self.messages.len();
        let mut out: Vec<AuthorizedMessageV1> = Vec::new();
        let mut i: usize = 0;
        while i < n
            invariant
                0 <= i <= n,
                n == self.messages@.len(),
                s == self@,
                out@.map_values(|m: AuthorizedMessageV1| m@) =~= s.subrange(0, i as int),
            decreases n - i,
        {
            let ghost pre_map = out@.map_values(|m: AuthorizedMessageV1| m@);
            out.push(self.messages[i].duplicate());
            proof {
                assert(out@.map_values(|m: AuthorizedMessageV1| m@) =~= pre_map.push(s[i as int]));
                assert(s.subrange(0, i + 1 as int) =~= s.subrange(0, i as int).push(s[i as int]));
            }
            i = i + 1;
        }
        let r = MessagesV1 { messages: out };
        proof {
            assert(s.subrange(0, n as int) =~= s);
            assert(r@ =~= s);
        }
        r
    }

    /// An empty log.
    pub fn new() -> (r: MessagesV1)
        ensures
            r@ =~= Seq::<AuthorizedMessageVV>::empty(),
    {
        let r = MessagesV1 { messages: Vec::new() };
        proof {
            assert(r.messages@.map_values(|m: AuthorizedMessageV1| m@) =~= Seq::<
                AuthorizedMessageVV,
            >::empty());
        }
        r
    }

    /// Verify every message's signature against its author's current key
    /// (the owner's id is also accepted as an author).
    pub fn verify(&self, members: &Members, owner_vk: &[u8]) -> (r: Result<(), RoomError>)
        ensures
            r is Ok <==> messages_verified(members@, owner_vk@, self@),
            r matches Err(e) ==> {
                let f = msg_first_failing_from(members@, owner_vk@, self@, 0);
                &&& 0 <= f < self@.len()
                &&& msg_check(members@, owner_vk@, self@[f]) == Some(e)
            },
    {
        let ghost ms = members@;
        let ghost s = self@;
        let owner_id = MemberId::new(owner_vk);
        let n = self.messages.len();
        let mut i: usize = 0;
        while i < n
            invariant
                0 <= i <= n,
                n == self.messages@.len(),
                s == self@,
                ms == members@,
                owner_id == crate::member::member_id_of(owner_vk@),
                forall|k: int| 0 <= k < i ==> #[trigger] msg_check(ms, owner_vk@, s[k]) is None,
            decreases n - i,
        {
            let m = &self.messages[i];
            let check: Option<RoomError> = if m.message.author == owner_id {
                match m.validate(owner_vk) {
                    Ok(()) => None,
                    Err(e) => Some(e),
                }
            } else {
                match crate::member::find_member_index(&members.members, m.message.author) {
                    None => Some(RoomError::AuthorNotMember),
                    Some(j) => {
                        proof {
                            lemma_idx_first(ms, m.message@.author);
                        }
                        match m.validate(members.members[j].member.member_vk.as_slice()) {
                            Ok(()) => None,
                            Err(e) => Some(e),
                        }
                    },
                }
            };
            match check {
                None => {
                    proof {
                        reveal(msg_check);
                        assert(msg_check(ms, owner_vk@, s[i as int]) is None);
                    }
                },
                Some(e) => {
                    proof {
                        reveal(msg_check);
                        assert(msg_check(ms, owner_vk@, s[i as int]) == Some(e));
                        lemma_msg_first_failing_is(ms, owner_vk@, s, i as int);
                    }
                    return Err(e);
                },
            }
            i = i + 1;
        }
        proof {
            lemma_msg_first_failing(ms, owner_vk@, s, 0);
        }
        Ok(())
    }

    /// Ordered list of message ids.
    pub fn summarize(&self) -> (r: Vec<MessageId>)
        ensures
            r@ == self@.map_values(|m: AuthorizedMessageVV| msg_id_of(m)),
    {
        let ghost s = self@;
        let n = self.messages.len();
        let mut out: Vec<MessageId> = Vec::new();
        let mut i: usize = 0;
        while i < n
            invariant
                0 <= i <= n,
                n == self.messages@.len(),
                s == self@,
                out@.len() == i,
                forall|k: int| 0 <= k < i ==> out@[k] == msg_id_of(s[k]),
            decreases n - i,
        {
            out.push(self.messages[i].id());
            i = i + 1;
        }
        assert(out@ =~= s.map_values(|m: AuthorizedMessageVV| msg_id_of(m)));
        out
    }

    /// Messages whose id the old summary lacks; `None` when there is no
    /// change, to avoid transmitting empty payloads.
    pub fn delta(&self, old_state_summary: &Vec<MessageId>) -> (r: Option<Vec<AuthorizedMessageV1>>)
        ensures
            r matches Some(v) ==> v@.map_values(|m: AuthorizedMessageV1| m@) == self@.filter(
                |m: AuthorizedMessageVV| !old_state_summary@.contains(msg_id_of(m)),
            ) && v@.len() > 0,
            r is None ==> self@.filter(
                |m: AuthorizedMessageVV| !old_state_summary@.contains(msg_id_of(m)),
            ) =~= Seq::<AuthorizedMessageVV>::empty(),
    {
        let ghost s = self@;
        let ghost old = old_state_summary@;
        let n = self.messages.len();
        let mut picked: Vec<AuthorizedMessageV1> = Vec::new();
        let mut i: usize = 0;
        while i < n
            invariant
                0 <= i <= n,
                n == self.messages@.len(),
                s == self@,
                old == old_state_summary@,
                picked@.map_values(|m: AuthorizedMessageV1| m@) == s.subrange(0, i as int).filter(
                    |m: AuthorizedMessageVV| !old.contains(msg_id_of(m)),
                ),
            decreases n - i,
        {
            let ghost pre = s.subrange(0, i as int);
            let ghost pre_map = picked@.map_values(|m: AuthorizedMessageV1| m@);
            let m = &self.messages[i];
            if !id_in_msg(old_state_summary, m.id()) {
                picked.push(m.duplicate());
            }
            proof {
                assert(s.subrange(0, i + 1 as int) =~= pre.push(s[i as int]));
                lemma_filter_push(pre, s[i as int], |m: AuthorizedMessageVV| !old.contains(msg_id_of(m)));
                if !old.contains(msg_id_of(s[i as int])) {
                    assert(picked@.map_values(|m: AuthorizedMessageV1| m@) =~= pre_map.push(
                        s[i as int],
                    ));
                }
            }
            i = i + 1;
        }
        proof {
            assert(s.subrange(0, n as int) =~= s);
        }
        if picked.len() == 0 {
            None
        } else {
            Some(picked)
        }
    }
}

// ------------------------------------------------------------------
// Total order and stable sorting
// ------------------------------------------------------------------

/// Total order on messages: by timestamp, ties by message id.
pub open spec fn msg_le(a: AuthorizedMessageVV, b: AuthorizedMessageVV) -> bool {
    a.message.time < b.message.time || (a.message.time == b.message.time && msg_id_of(a).0
        <= msg_id_of(b).0)
}

/// The log is sorted by `(timestamp, id)`.
pub open spec fn msgs_sorted(s: Seq<AuthorizedMessageVV>) -> bool {
    forall|i: int, j: int| 0 <= i < j < s.len() ==> msg_le(#[trigger] s[i], #[trigger] s[j])
}

/// Insert into a sorted sequence, after any equal keys (stable).
pub open spec fn insert_sorted(s: Seq<AuthorizedMessageVV>, x: AuthorizedMessageVV) -> Seq<
    AuthorizedMessageVV,
>
    decreases s.len(),
{
    if s.len() == 0 {
        seq![x]
    } else if msg_le(s.last(), x) {
        s.push(x)
    } else {
        insert_sorted(s.drop_last(), x).push(s.last())
    }
}

/// Stable insertion sort of the whole sequence.
pub open spec fn stable_sort(s: Seq<AuthorizedMessageVV>) -> Seq<AuthorizedMessageVV>
    decreases s.len(),
{
    if s.len() == 0 {
        s
    } else {
        insert_sorted(stable_sort(s.drop_last()), s.last())
    }
}

/// `insert_sorted` keeps the sequence sorted and adds exactly the new
/// element.
pub proof fn lemma_insert_sorted(s: Seq<AuthorizedMessageVV>, x: AuthorizedMessageVV)
    requires
        msgs_sorted(s),
    ensures
        msgs_sorted(insert_sorted(s, x)),
        insert_sorted(s, x).to_multiset() =~= s.to_multiset().insert(x),
        insert_sorted(s, x).len() == s.len() + 1,
        forall|y: AuthorizedMessageVV|
            #[trigger] insert_sorted(s, x).contains(y) ==> s.contains(y) || y == x,
    decreases s.len(),
{
    broadcast use vstd::seq_lib::group_to_multiset_ensures;

    if s.len() == 0 {
        assert(insert_sorted(s, x) =~= Seq::empty().push(x));
        assert(Seq::<AuthorizedMessageVV>::empty().push(x).to_multiset() =~= Seq::<
            AuthorizedMessageVV,
        >::empty().to_multiset().insert(x));
    } else if msg_le(s.last(), x) {
        assert forall|y: AuthorizedMessageVV| #[trigger]
            insert_sorted(s, x).contains(y) implies s.contains(y) || y == x by {
            let k = choose|k: int| 0 <= k < s.push(x).len() && s.push(x)[k] == y;
            if k < s.len() {
                assert(s[k] == y);
            }
        }
        assert forall|i: int, j: int|
            0 <= i < j < s.push(x).len() implies msg_le(
            #[trigger] s.push(x)[i],
            #[trigger] s.push(x)[j],
        ) by {
            if j < s.len() {
            } else {
                // s[i] <= s.last() <= x
                if i < s.len() - 1 {
                    assert(msg_le(s[i], s[s.len() - 1]));
                }
            }
        }
    } else {
        let t = s.drop_last();
        assert(msgs_sorted(t)) by {
            assert forall|i: int, j: int|
                0 <= i < j < t.len() implies msg_le(#[trigger] t[i], #[trigger] t[j]) by {
                assert(t[i] == s[i] && t[j] == s[j]);
            }
        }
        lemma_insert_sorted(t, x);
        let r0 = insert_sorted(t, x);
        let r = r0.push(s.last());
        // every element of r0 is bounded by s.last()
        assert forall|k: int| 0 <= k < r0.len() implies msg_le(r0[k], s.last()) by {
            assert(r0.contains(r0[k]));
            if r0[k] == x {
                // x is strictly below s.last() since !msg_le(s.last(), x)
            } else {
                let m = choose|m: int| 0 <= m < t.len() && t[m] == r0[k];
                assert(t[m] == s[m]);
                assert(msg_le(s[m], s[s.len() - 1]));
            }
        }
        assert forall|i: int, j: int|
            0 <= i < j < r.len() implies msg_le(#[trigger] r[i], #[trigger] r[j]) by {
            if j < r0.len() {
                assert(r[i] == r0[i] && r[j] == r0[j]);
            } else {
                assert(r[j] == s.last());
                assert(r[i] == r0[i]);
            }
        }
        assert(s =~= t.push(s.last()));
        assert(s.to_multiset() =~= t.to_multiset().insert(s.last()));
        assert(r.to_multiset() =~= r0.to_multiset().insert(s.last()));
        assert(r.to_multiset() =~= s.to_multiset().insert(x));
        assert forall|y: AuthorizedMessageVV| #[trigger]
            r.contains(y) implies s.contains(y) || y == x by {
            let k = choose|k: int| 0 <= k < r.len() && r[k] == y;
            if k < r0.len() {
                assert(r0.contains(y));
                if y != x {
                    let m = choose|m: int| 0 <= m < t.len() && t[m] == y;
                    assert(s[m] == y);
                }
            } else {
                assert(y == s.last());
                assert(s[s.len() - 1] == y);
            }
        }
    }
}

/// `stable_sort` sorts and preserves the multiset of messages.
pub proof fn lemma_stable_sort(s: Seq<AuthorizedMessageVV>)
    ensures
        msgs_sorted(stable_sort(s)),
        stable_sort(s).to_multiset() =~= s.to_multiset(),
        stable_sort(s).len() == s.len(),
    decreases s.len(),
{
    broadcast use vstd::seq_lib::group_to_multiset_ensures;

    if s.len() > 0 {
        let t = s.drop_last();
        lemma_stable_sort(t);
        lemma_insert_sorted(stable_sort(t), s.last());
        assert(s =~= t.push(s.last()));
        assert(s.to_multiset() =~= t.to_multiset().insert(s.last()));
    }
}

/// Sorting an already sorted log changes nothing.
pub proof fn lemma_stable_sort_of_sorted(s: Seq<AuthorizedMessageVV>)
    requires
        msgs_sorted(s),
    ensures
        stable_sort(s) == s,
    decreases s.len(),
{
    if s.len() > 0 {
        let t = s.drop_last();
        assert(msgs_sorted(t)) by {
            assert forall|i: int, j: int|
                0 <= i < j < t.len() implies msg_le(#[trigger] t[i], #[trigger] t[j]) by {
                assert(t[i] == s[i] && t[j] == s[j]);
            }
        }
        lemma_stable_sort_of_sorted(t);
        if t.len() == 0 {
            assert(insert_sorted(t, s.last()) =~= s);
        } else {
            assert(msg_le(t.last(), s.last())) by {
                assert(t[t.len() - 1] == s[s.len() - 2]);
                assert(msg_le(s[s.len() - 2], s[s.len() - 1]));
            }
            assert(t.push(s.last()) =~= s);
        }
    }
}

/// Where the executable insertion lands: inserting at a position whose
/// successors are all strictly above the new element, and whose predecessor
/// is not, realizes `insert_sorted`.
pub proof fn lemma_insert_sorted_at(s: Seq<AuthorizedMessageVV>, x: AuthorizedMessageVV, pos: int)
    requires
        msgs_sorted(s),
        0 <= pos <= s.len(),
        pos > 0 ==> msg_le(s[pos - 1], x),
        forall|k: int| pos <= k < s.len() ==> !msg_le(#[trigger] s[k], x),
    ensures
        insert_sorted(s, x) =~= s.insert(pos, x),
    decreases s.len(),
{
    if s.len() == 0 {
        assert(insert_sorted(s, x) =~= s.insert(0, x));
    } else if msg_le(s.last(), x) {
        assert(pos == s.len()) by {
            if pos < s.len() {
                assert(!msg_le(s[s.len() - 1], x));
            }
        }
        assert(s.push(x) =~= s.insert(s.len() as int, x));
    } else {
        let t = s.drop_last();
        assert(pos <= t.len());
        assert(msgs_sorted(t)) by {
            assert forall|i: int, j: int|
                0 <= i < j < t.len() implies msg_le(#[trigger] t[i], #[trigger] t[j]) by {
                assert(t[i] == s[i] && t[j] == s[j]);
            }
        }
        assert(forall|k: int| pos <= k < t.len() ==> !msg_le(#[trigger] t[k], x)) by {
            assert(forall|k: int| 0 <= k < t.len() ==> t[k] == s[k]);
        }
        if pos > 0 {
            assert(t[pos - 1] == s[pos - 1]);
        }
        lemma_insert_sorted_at(t, x, pos);
        assert(insert_sorted(t, x).push(s.last()) =~= t.insert(pos, x).push(s.last()));
        assert(t.insert(pos, x).push(s.last()) =~= s.insert(pos, x));
    }
}

/// Compare two messages in the log's total order.
pub fn msg_le_exec(a: &AuthorizedMessageV1, b: &AuthorizedMessageV1) -> (r: bool)
    ensures
        r == msg_le(a@, b@),
{
    if a.message.time < b.message.time {
        true
    } else if a.message.time == b.message.time {
        a.id().0 <= b.id().0
    } else {
        false
    }
}

/// Stable insertion sort by `(timestamp, id)`.
fn sort_by_time_id(input: &Vec<AuthorizedMessageV1>) -> (r: Vec<AuthorizedMessageV1>)
    ensures
        r@.map_values(|m: AuthorizedMessageV1| m@) == stable_sort(
            input@.map_values(|m: AuthorizedMessageV1| m@),
        ),
        msgs_sorted(r@.map_values(|m: AuthorizedMessageV1| m@)),
{
    let ghost s = input@.map_values(|m: AuthorizedMessageV1| m@);
    let n = input.len();
    let mut out: Vec<AuthorizedMessageV1> = Vec::new();
    proof {
        assert(out@.map_values(|m: AuthorizedMessageV1| m@) =~= stable_sort(
            s.subrange(0, 0),
        )) by {
            assert(s.subrange(0, 0) =~= Seq::<AuthorizedMessageVV>::empty());
        }
    }
    let mut i: usize = 0;
    while i < n
        invariant
            0 <= i <= n,
            n == input@.len(),
            s == input@.map_values(|m: AuthorizedMessageV1| m@),
            out@.map_values(|m: AuthorizedMessageV1| m@) == stable_sort(s.subrange(0, i as int)),
            msgs_sorted(out@.map_values(|m: AuthorizedMessageV1| m@)),
        decreases n - i,
    {
        let ghost pre = s.subrange(0, i as int);
        let ghost out_v = out@.map_values(|m: AuthorizedMessageV1| m@);
        let x = input[i].duplicate();
        let mut pos: usize = out.len();
        while pos > 0 && !msg_le_exec(&out[pos - 1], &x)
            invariant
                0 <= pos <= out@.len(),
                out_v == out@.map_values(|m: AuthorizedMessageV1| m@),
                x@ == s[i as int],
                0 <= i < s.len(),
                forall|k: int| pos <= k < out_v.len() ==> !msg_le(#[trigger] out_v[k], x@),
            decreases pos,
        {
            pos = pos - 1;
        }
        out.insert(pos, x);
        proof {
            lemma_insert_sorted_at(out_v, s[i as int], pos as int);
            assert(out@.map_values(|m: AuthorizedMessageV1| m@) =~= out_v.insert(
                pos as int,
                s[i as int],
            ));
            assert(s.subrange(0, i + 1 as int) =~= pre.push(s[i as int]));
            assert(stable_sort(pre.push(s[i as int])) == insert_sorted(
                stable_sort(pre.push(s[i as int]).drop_last()),
                pre.push(s[i as int]).last(),
            ));
            assert(pre.push(s[i as int]).drop_last() =~= pre);
            lemma_stable_sort(pre);
            lemma_insert_sorted(stable_sort(pre), s[i as int]);
        }
        i = i + 1;
    }
    proof {
        assert(s.subrange(0, n as int) =~= s);
    }
    out
}

// ------------------------------------------------------------------
// Applying a delta: append, sort, filter, trim
// ------------------------------------------------------------------

/// Whether a message survives retention: its content fits the size limit
/// (in bytes) and its author is still the owner or a member.
pub open spec fn msg_keep(
    members_s: Seq<AuthorizedMemberV>,
    owner_id: MemberId,
    max_size: nat,
    m: AuthorizedMessageVV,
) -> bool {
    &&& vstd::utf8::encode_utf8(m.message.content).len() <= max_size
    &&& (m.message.author == owner_id || has_member_id(members_s, m.message.author))
}

/// Keep at most the last `max` entries of a log.
pub open spec fn trim_front(s: Seq<AuthorizedMessageVV>, max: nat) -> Seq<AuthorizedMessageVV> {
    if s.len() <= max {
        s
    } else {
        s.subrange(s.len() - max, s.len() as int)
    }
}

/// The canonical log after merging a batch of messages: sort everything by
/// `(timestamp, id)`, drop what retention refuses, and keep the newest
/// `max_recent` entries.
pub open spec fn canon_log(
    s: Seq<AuthorizedMessageVV>,
    members_s: Seq<AuthorizedMemberV>,
    owner_id: MemberId,
    max_size: nat,
    max_recent: nat,
) -> Seq<AuthorizedMessageVV> {
    trim_front(
        stable_sort(s).filter(|m: AuthorizedMessageVV| msg_keep(members_s, owner_id, max_size, m)),
        max_recent,
    )
}

/// The messages a delta carries, or nothing.
pub open spec fn msg_delta_view(d: Option<Vec<AuthorizedMessageV1>>) -> Seq<AuthorizedMessageVV> {
    match d {
        Some(v) => v@.map_values(|m: AuthorizedMessageV1| m@),
        None => Seq::empty(),
    }
}

/// Filtering a sorted log keeps it sorted.
pub proof fn lemma_filter_sorted(
    s: Seq<AuthorizedMessageVV>,
    pred: spec_fn(AuthorizedMessageVV) -> bool,
)
    requires
        msgs_sorted(s),
    ensures
        msgs_sorted(s.filter(pred)),
    decreases s.len(),
{
    reveal(Seq::filter);
    if s.len() > 0 {
        let t = s.drop_last();
        assert(msgs_sorted(t)) by {
            assert forall|i: int, j: int|
                0 <= i < j < t.len() implies msg_le(#[trigger] t[i], #[trigger] t[j]) by {
                assert(t[i] == s[i] && t[j] == s[j]);
            }
        }
        lemma_filter_sorted(t, pred);
        if pred(s.last()) {
            let f0 = t.filter(pred);
            let f = f0.push(s.last());
            lemma_filter_subset_contains(t, pred);
            assert forall|k: int| 0 <= k < f0.len() implies msg_le(f0[k], s.last()) by {
                assert(f0.contains(f0[k]));
                let m = choose|m: int| 0 <= m < t.len() && t[m] == f0[k];
                assert(t[m] == s[m]);
                assert(msg_le(s[m], s[s.len() - 1]));
            }
            assert forall|i: int, j: int|
                0 <= i < j < f.len() implies msg_le(#[trigger] f[i], #[trigger] f[j]) by {
                if j < f0.len() {
                    assert(f[i] == f0[i] && f[j] == f0[j]);
                } else {
                    assert(f[j] == s.last() && f[i] == f0[i]);
                }
            }
        }
    }
}

/// A merged log is already canonical: merging nothing more leaves it as it
/// is.
pub proof fn lemma_canon_of_canonical(
    s: Seq<AuthorizedMessageVV>,
    members_s: Seq<AuthorizedMemberV>,
    owner_id: MemberId,
    max_size: nat,
    max_recent: nat,
)
    requires
        msgs_sorted(s),
        forall|k: int| 0 <= k < s.len() ==> msg_keep(members_s, owner_id, max_size, #[trigger] s[k]),
        s.len() <= max_recent,
    ensures
        canon_log(s, members_s, owner_id, max_size, max_recent) == s,
{
    lemma_stable_sort_of_sorted(s);
    lemma_filter_all(s, |m: AuthorizedMessageVV| msg_keep(members_s, owner_id, max_size, m));
}

impl MessagesV1 {
    /// Merge a batch of messages into the log.
    ///
    /// Appends the delta, sorts everything by `(timestamp, id)`, drops
    /// oversized messages and messages whose author is no longer the owner
    /// or a member, and evicts the oldest entries while the log exceeds
    /// `max_recent_messages`.  The result is the canonical log of the
    /// combined message batch, so it does not depend on arrival order.
    pub fn apply_delta(
        &mut self,
        members: &Members,
        owner_id: MemberId,
        max_recent_messages: usize,
        max_message_size: usize,
        delta: &Option<Vec<AuthorizedMessageV1>>,
    ) -> (r: Result<(), RoomError>)
        ensures
            r is Ok,
            final(self)@ == canon_log(
                old(self)@ + msg_delta_view(*delta),
                members@,
                owner_id,
                max_message_size as nat,
                max_recent_messages as nat,
            ),
            msgs_sorted(final(self)@),
            final(self)@.len() <= max_recent_messages,
            forall|k: int|
                0 <= k < final(self)@.len() ==> msg_keep(
                    members@,
                    owner_id,
                    max_message_size as nat,
                    #[trigger] final(self)@[k],
                ),
    {
        let ghost s0 = self@;
        let ghost dv = msg_delta_view(*delta);
        let ghost ms = members@;
        // 1. combine the current log and the delta
        let mut combined: Vec<AuthorizedMessageV1> = Vec::new();
        let n = self.messages.len();
        let mut i: usize = 0;
        while i < n
            invariant
                0 <= i <= n,
                n == self.messages@.len(),
                s0 == self@,
                combined@.map_values(|m: AuthorizedMessageV1| m@) =~= s0.subrange(0, i as int),
            decreases n - i,
        {
            let ghost pre_map = combined@.map_values(|m: AuthorizedMessageV1| m@);
            combined.push(self.messages[i].duplicate());
            proof {
                assert(combined@.map_values(|m: AuthorizedMessageV1| m@) =~= pre_map.push(
                    s0[i as int],
                ));
                assert(s0.subrange(0, i + 1 as int) =~= s0.subrange(0, i as int).push(
                    s0[i as int],
                ));
            }
            i = i + 1;
        }
        proof {
            assert(s0.subrange(0, n as int) =~= s0);
        }
        match delta {
            None => {
                proof {
                    assert(s0 + dv =~= s0);
                }
            },
            Some(dm) => {
                let dn = dm.len();
                let mut j: usize = 0;
                while j < dn
                    invariant
                        0 <= j <= dn,
                        dn == dm@.len(),
                        dv == dm@.map_values(|m: AuthorizedMessageV1| m@),
                        combined@.map_values(|m: AuthorizedMessageV1| m@) =~= s0 + dv.subrange(
                            0,
                            j as int,
                        ),
                    decreases dn - j,
                {
                    let ghost pre_map = combined@.map_values(|m: AuthorizedMessageV1| m@);
                    combined.push(dm[j].duplicate());
                    proof {
                        assert(dv[j as int] == dm@[j as int]@);
                        assert(combined@.map_values(|m: AuthorizedMessageV1| m@) =~= pre_map.push(
                            dv[j as int],
                        ));
                        assert(dv.subrange(0, j + 1 as int) =~= dv.subrange(0, j as int).push(
                            dv[j as int],
                        ));
                    }
                    j = j + 1;
                }
                proof {
                    assert(dv.subrange(0, dn as int) =~= dv);
                }
            },
        }
        assert(combined@.map_values(|m: AuthorizedMessageV1| m@) =~= s0 + dv);
        // 2. sort by (timestamp, id)
        let sorted = sort_by_time_id(&combined);
        let ghost sorted_v = sorted@.map_values(|m: AuthorizedMessageV1| m@);
        // 3. drop oversized messages and unknown authors
        let sn = sorted.len();
        let mut kept: Vec<AuthorizedMessageV1> = Vec::new();
        let mut k: usize = 0;
        while k < sn
            invariant
                0 <= k <= sn,
                sn == sorted@.len(),
                ms == members@,
                sorted_v == sorted@.map_values(|m: AuthorizedMessageV1| m@),
                kept@.map_values(|m: AuthorizedMessageV1| m@) == sorted_v.subrange(
                    0,
                    k as int,
                ).filter(
                    |m: AuthorizedMessageVV| msg_keep(
                        ms,
                        owner_id,
                        max_message_size as nat,
                        m,
                    ),
                ),
            decreases sn - k,
        {
            let ghost pre = sorted_v.subrange(0, k as int);
            let ghost pre_map = kept@.map_values(|m: AuthorizedMessageV1| m@);
            let m = &sorted[k];
            let size_ok = m.message.content.as_str().as_bytes().len() <= max_message_size;
            let author_ok = m.message.author == owner_id || crate::member::find_member_index(
                &members.members,
                m.message.author,
            ).is_some();
            proof {
                lemma_idx_first(ms, m.message@.author);
            }
            if size_ok && author_ok {
                kept.push(m.duplicate());
            }
            proof {
                assert(sorted_v.subrange(0, k + 1 as int) =~= pre.push(sorted_v[k as int]));
                lemma_filter_push(
                    pre,
                    sorted_v[k as int],
                    |m: AuthorizedMessageVV| msg_keep(ms, owner_id, max_message_size as nat, m),
                );
                assert(m@ == sorted_v[k as int]);
                assert(size_ok == (vstd::utf8::encode_utf8(sorted_v[k as int].message.content).len()
                    <= max_message_size));
                assert(author_ok == (sorted_v[k as int].message.author == owner_id
                    || has_member_id(ms, sorted_v[k as int].message.author)));
                assert((size_ok && author_ok) == msg_keep(
                    ms,
                    owner_id,
                    max_message_size as nat,
                    sorted_v[k as int],
                ));
                if size_ok && author_ok {
                    assert(kept@.map_values(|m: AuthorizedMessageV1| m@) =~= pre_map.push(
                        sorted_v[k as int],
                    ));
                }
            }
            k = k + 1;
        }
        proof {
            assert(sorted_v.subrange(0, sn as int) =~= sorted_v);
        }
        let ghost kept_v0 = kept@.map_values(|m: AuthorizedMessageV1| m@);
        proof {
            assert(kept_v0 =~= kept_v0.subrange(0, kept_v0.len() as int));
        }
        // 4. evict the oldest entries while over the retention bound
        while kept.len() > max_recent_messages
            invariant
                kept@.len() <= kept_v0.len(),
                kept@.len() >= max_recent_messages || kept@.len() == kept_v0.len(),
                kept_v0 == sorted_v.filter(
                    |m: AuthorizedMessageVV| msg_keep(
                        ms,
                        owner_id,
                        max_message_size as nat,
                        m,
                    ),
                ),
                kept@.map_values(|m: AuthorizedMessageV1| m@) =~= kept_v0.subrange(
                    kept_v0.len() - kept@.len(),
                    kept_v0.len() as int,
                ),
            decreases kept@.len(),
        {
            let ghost pre_map = kept@.map_values(|m: AuthorizedMessageV1| m@);
            kept.remove(0);
            proof {
                assert(kept@.map_values(|m: AuthorizedMessageV1| m@) =~= pre_map.remove(0));
                assert(pre_map.remove(0) =~= kept_v0.subrange(
                    kept_v0.len() - kept@.len(),
                    kept_v0.len() as int,
                ));
            }
        }
        proof {
            let fin = kept@.map_values(|m: AuthorizedMessageV1| m@);
            assert(fin =~= trim_front(kept_v0, max_recent_messages as nat));
            lemma_stable_sort(s0 + dv);
            lemma_filter_sorted(
                sorted_v,
                |m: AuthorizedMessageVV| msg_keep(ms, owner_id, max_message_size as nat, m),
            );
            broadcast use vstd::prelude::Seq::lemma_filter_pred;

            assert forall|q: int| 0 <= q < fin.len() implies msg_keep(
                ms,
                owner_id,
                max_message_size as nat,
                #[trigger] fin[q],
            ) by {
                if kept_v0.len() > max_recent_messages {
                    assert(fin[q] == kept_v0[kept_v0.len() - fin.len() + q]);
                }
            }
            assert(msgs_sorted(fin)) by {
                if kept_v0.len() > max_recent_messages {
                    assert forall|i1: int, j1: int|
                        0 <= i1 < j1 < fin.len() implies msg_le(
                        #[trigger] fin[i1],
                        #[trigger] fin[j1],
                    ) by {
                        let off = kept_v0.len() - fin.len();
                        assert(fin[i1] == kept_v0[off + i1] && fin[j1] == kept_v0[off + j1]);
                    }
                }
            }
        }
        self.messages = kept;
        Ok(())
    }
}

// ------------------------------------------------------------------
// Convergence laws
// ------------------------------------------------------------------

/// Two messages carry the same ordering key.
pub open spec fn msg_key_eq(a: AuthorizedMessageVV, b: AuthorizedMessageVV) -> bool {
    a.message.time == b.message.time && msg_id_of(a) == msg_id_of(b)
}

/// Within this batch, the ordering key determines the message: distinct
/// messages never collide on `(timestamp, id)`.
pub open spec fn keys_determine(s: Seq<AuthorizedMessageVV>) -> bool {
    forall|a: AuthorizedMessageVV, b: AuthorizedMessageVV|
        #[trigger] s.contains(a) && #[trigger] s.contains(b) && msg_key_eq(a, b) ==> a == b
}

/// Two sorted logs with the same messages are identical, provided keys
/// determine messages.
pub proof fn lemma_sorted_unique_keyed(x: Seq<AuthorizedMessageVV>, y: Seq<AuthorizedMessageVV>)
    requires
        msgs_sorted(x),
        msgs_sorted(y),
        x.to_multiset() == y.to_multiset(),
        keys_determine(x),
    ensures
        x =~= y,
    decreases x.len(),
{
    broadcast use vstd::seq_lib::group_to_multiset_ensures;
    broadcast use vstd::multiset::group_multiset_axioms;

    if x.len() == 0 || y.len() == 0 {
    } else {
        assert(x.to_multiset().contains(x[0]));
        assert(y.to_multiset().contains(y[0]));
        assert(x.contains(y[0]));
        assert(y.contains(x[0]));
        let i = choose|i: int| 0 <= i < x.len() && x[i] == y[0];
        let j = choose|j: int| 0 <= j < y.len() && y[j] == x[0];
        assert(msg_le(x[0], y[0])) by {
            if i > 0 {
                assert(msg_le(x[0], x[i]));
            }
        }
        assert(msg_le(y[0], x[0])) by {
            if j > 0 {
                assert(msg_le(y[0], y[j]));
            }
        }
        assert(msg_key_eq(x[0], y[0]));
        assert(x.contains(x[0]));
        assert(x[0] == y[0]);
        let xr = x.drop_first();
        let yr = y.drop_first();
        assert(xr =~= x.remove(0));
        assert(yr =~= y.remove(0));
        assert(xr.to_multiset() =~= x.to_multiset().remove(x[0]));
        assert(yr.to_multiset() =~= y.to_multiset().remove(y[0]));
        assert(msgs_sorted(xr)) by {
            assert forall|p: int, q: int|
                0 <= p < q < xr.len() implies msg_le(#[trigger] xr[p], #[trigger] xr[q]) by {
                assert(xr[p] == x[p + 1] && xr[q] == x[q + 1]);
            }
        }
        assert(msgs_sorted(yr)) by {
            assert forall|p: int, q: int|
                0 <= p < q < yr.len() implies msg_le(#[trigger] yr[p], #[trigger] yr[q]) by {
                assert(yr[p] == y[p + 1] && yr[q] == y[q + 1]);
            }
        }
        assert(keys_determine(xr)) by {
            assert forall|a: AuthorizedMessageVV, b: AuthorizedMessageVV| #[trigger]
                xr.contains(a) && #[trigger] xr.contains(b) && msg_key_eq(a, b) implies a == b by {
                let p = choose|p: int| 0 <= p < xr.len() && xr[p] == a;
                let q = choose|q: int| 0 <= q < xr.len() && xr[q] == b;
                assert(x[p + 1] == a && x[q + 1] == b);
                assert(x.contains(a) && x.contains(b));
            }
        }
        lemma_sorted_unique_keyed(xr, yr);
        assert forall|k: int| 0 <= k < x.len() implies x[k] == y[k] by {
            if k > 0 {
                assert(xr[k - 1] == yr[k - 1]);
            }
        }
    }
}

/// `keys_determine` only depends on which messages are present.
pub proof fn lemma_keys_determine_multiset(s1: Seq<AuthorizedMessageVV>, s2: Seq<AuthorizedMessageVV>)
    requires
        s1.to_multiset() == s2.to_multiset(),
        keys_determine(s1),
    ensures
        keys_determine(s2),
{
    broadcast use vstd::seq_lib::group_to_multiset_ensures;

    assert forall|a: AuthorizedMessageVV, b: AuthorizedMessageVV| #[trigger]
        s2.contains(a) && #[trigger] s2.contains(b) && msg_key_eq(a, b) implies a == b by {
        assert(s2.to_multiset().count(a) > 0);
        assert(s2.to_multiset().count(b) > 0);
        assert(s1.to_multiset().count(a) > 0);
        assert(s1.to_multiset().count(b) > 0);
        assert(s1.contains(a) && s1.contains(b));
    }
}

/// LAW (convergence, core): the canonical log depends only on which
/// messages were merged, never on the order they arrived in — provided no
/// two distinct messages collide on `(timestamp, id)`.
pub proof fn lemma_canon_multiset_determined(
    s1: Seq<AuthorizedMessageVV>,
    s2: Seq<AuthorizedMessageVV>,
    members_s: Seq<AuthorizedMemberV>,
    owner_id: MemberId,
    max_size: nat,
    max_recent: nat,
)
    requires
        s1.to_multiset() == s2.to_multiset(),
        keys_determine(s1),
    ensures
        canon_log(s1, members_s, owner_id, max_size, max_recent) == canon_log(
            s2,
            members_s,
            owner_id,
            max_size,
            max_recent,
        ),
{
    broadcast use vstd::seq_lib::group_to_multiset_ensures;

    lemma_stable_sort(s1);
    lemma_stable_sort(s2);
    lemma_keys_determine_multiset(s1, stable_sort(s1));
    lemma_sorted_unique_keyed(stable_sort(s1), stable_sort(s2));
    assert(stable_sort(s1) == stable_sort(s2));
}

/// LAW (convergence): merging the same two message batches in either
/// arrival order yields the same canonical log.
pub proof fn lemma_merge_order_irrelevant(
    log: Seq<AuthorizedMessageVV>,
    d1: Seq<AuthorizedMessageVV>,
    d2: Seq<AuthorizedMessageVV>,
    members_s: Seq<AuthorizedMemberV>,
    owner_id: MemberId,
    max_size: nat,
    max_recent: nat,
)
    requires
        keys_determine(log + (d1 + d2)),
    ensures
        canon_log(log + (d1 + d2), members_s, owner_id, max_size, max_recent) == canon_log(
            log + (d2 + d1),
            members_s,
            owner_id,
            max_size,
            max_recent,
        ),
{
    broadcast use vstd::seq_lib::group_to_multiset_ensures;

    vstd::seq_lib::lemma_multiset_commutative(log, d1 + d2);
    vstd::seq_lib::lemma_multiset_commutative(log, d2 + d1);
    vstd::seq_lib::lemma_multiset_commutative(d1, d2);
    vstd::seq_lib::lemma_multiset_commutative(d2, d1);
    assert((log + (d1 + d2)).to_multiset() =~= (log + (d2 + d1)).to_multiset());
    lemma_canon_multiset_determined(
        log + (d1 + d2),
        log + (d2 + d1),
        members_s,
        owner_id,
        max_size,
        max_recent,
    );
}

// ------------------------------------------------------------------
// Sequential-merge convergence: merging absorbs earlier trims
// ------------------------------------------------------------------

/// Removing an element of a sorted log keeps it sorted.
pub proof fn lemma_sorted_remove(s: Seq<AuthorizedMessageVV>, i: int)
    requires
        msgs_sorted(s),
        0 <= i < s.len(),
    ensures
        msgs_sorted(s.remove(i)),
{
    let r = s.remove(i);
    assert forall|p: int, q: int|
        0 <= p < q < r.len() implies msg_le(#[trigger] r[p], #[trigger] r[q]) by {
        let p0 = if p < i {
            p
        } else {
            p + 1
        };
        let q0 = if q < i {
            q
        } else {
            q + 1
        };
        assert(r[p] == s[p0] && r[q] == s[q0]);
    }
}

/// First index carrying exactly this message, or -1.
pub open spec fn msg_idx_of(s: Seq<AuthorizedMessageVV>, m: AuthorizedMessageVV) -> int
    decreases s.len(),
{
    if s.len() == 0 {
        -1
    } else if s[0] == m {
        0
    } else {
        let rest = msg_idx_of(s.drop_first(), m);
        if rest < 0 {
            -1
        } else {
            rest + 1
        }
    }
}

/// `msg_idx_of` finds the least occurrence when one exists.
pub proof fn lemma_msg_idx_of(s: Seq<AuthorizedMessageVV>, m: AuthorizedMessageVV)
    ensures
        -1 <= msg_idx_of(s, m) < s.len(),
        msg_idx_of(s, m) >= 0 ==> s[msg_idx_of(s, m)] == m,
        forall|p: int| 0 <= p < msg_idx_of(s, m) ==> s[p] != m,
        s.contains(m) ==> msg_idx_of(s, m) >= 0,
    decreases s.len(),
{
    if s.len() == 0 {
    } else if s[0] == m {
    } else {
        lemma_msg_idx_of(s.drop_first(), m);
        assert(forall|p: int| 1 <= p < s.len() ==> s[p] == s.drop_first()[p - 1]);
        if s.contains(m) {
            let w = choose|w: int| 0 <= w < s.len() && s[w] == m;
            assert(s.drop_first()[w - 1] == m);
            assert(s.drop_first().contains(m));
        }
    }
}

/// In a sorted, key-determined log, everything at or above the first
/// occurrence of `g` is at least `g`, and everything below is not.
proof fn lemma_sorted_ge_suffix(s: Seq<AuthorizedMessageVV>, g: AuthorizedMessageVV)
    requires
        msgs_sorted(s),
        keys_determine(s),
        s.contains(g),
    ensures
        ({
            let i = msg_idx_of(s, g);
            &&& 0 <= i < s.len()
            &&& s.filter(|x: AuthorizedMessageVV| msg_le(g, x)).len() == s.len() - i
        }),
{
    lemma_msg_idx_of(s, g);
    let i = msg_idx_of(s, g);
    let ge = |x: AuthorizedMessageVV| msg_le(g, x);
    let front = s.subrange(0, i);
    let back = s.subrange(i, s.len() as int);
    assert(s =~= front + back);
    lemma_filter_concat(front, back, ge);
    // nothing before the first occurrence is >= g
    assert forall|p: int| 0 <= p < front.len() implies !ge(#[trigger] front[p]) by {
        assert(front[p] == s[p]);
        if msg_le(g, s[p]) {
            // s[p] <= g (sorted, p < i) and g <= s[p], so keys agree and
            // the elements coincide, contradicting that i is first
            assert(msg_le(s[p], s[i]));
            assert(s.contains(s[p]));
            assert(msg_key_eq(s[p], g));
            assert(s[p] == g);
        }
    }
    crate::seqs::lemma_filter_none(front, ge);
    // everything from the first occurrence on is >= g
    assert forall|p: int| 0 <= p < back.len() implies ge(#[trigger] back[p]) by {
        assert(back[p] == s[i + p]);
        if p > 0 {
            assert(msg_le(s[i], s[i + p]));
        }
    }
    lemma_filter_all(back, ge);
    assert(s.filter(ge) =~= back);
}

/// Dropping the first occurrence of a low element does not change which
/// entries the retention bound keeps.
proof fn lemma_trim_remove_low(s: Seq<AuthorizedMessageVV>, i: int, k: nat)
    requires
        msgs_sorted(s),
        0 <= i < s.len() - k,
    ensures
        trim_front(s, k) == trim_front(s.remove(i), k),
{
    let r = s.remove(i);
    if s.len() <= k {
    } else if r.len() <= k {
        // r.len() == s.len() - 1 >= k by the position bound, so r.len() == k
        assert(trim_front(s, k) =~= r);
    } else {
        assert forall|p: int|
            0 <= p < k implies trim_front(r, k)[p] == trim_front(s, k)[p] by {
            assert(trim_front(s, k)[p] == s[s.len() - k + p]);
            assert(trim_front(r, k)[p] == r[r.len() - k + p]);
            // the removed index sits strictly below the kept zone
            assert(r[r.len() - k + p] == s[s.len() - k + p]);
        }
        assert(trim_front(s, k) =~= trim_front(r, k));
    }
}

/// Trimming `Z` down to `k` entries forgets exactly the low extras `g`:
/// the induction behind merge absorption.
proof fn lemma_trim_absorb_steps(
    z: Seq<AuthorizedMessageVV>,
    x1: Seq<AuthorizedMessageVV>,
    t: Seq<AuthorizedMessageVV>,
    dfil: Seq<AuthorizedMessageVV>,
    g: Seq<AuthorizedMessageVV>,
    k: nat,
)
    requires
        msgs_sorted(z),
        keys_determine(z),
        msgs_sorted(x1),
        keys_determine(x1),
        z.to_multiset() == (t + dfil + g).to_multiset(),
        x1.to_multiset() == (t + dfil).to_multiset(),
        t.len() == k,
        forall|p: int, q: int|
            0 <= p < g.len() && 0 <= q < t.len() ==> msg_le(#[trigger] g[p], #[trigger] t[q]),
    ensures
        trim_front(z, k) == trim_front(x1, k),
    decreases g.len(),
{
    broadcast use vstd::seq_lib::group_to_multiset_ensures;
    broadcast use vstd::multiset::group_multiset_axioms;

    if g.len() == 0 {
        assert(t + dfil + g =~= t + dfil);
        lemma_sorted_unique_keyed(z, x1);
    } else {
        let gl = g.last();
        // g.last() occurs in z
        assert((t + dfil + g).contains(gl)) by {
            assert((t + dfil + g)[t.len() + dfil.len() + g.len() - 1] == gl);
        }
        vstd::seq_lib::lemma_multiset_commutative(t + dfil, g);
        assert(z.to_multiset().contains(gl));
        assert(z.contains(gl));
        lemma_msg_idx_of(z, gl);
        let i = msg_idx_of(z, gl);
        // count the entries of z at least g.last(): all of t, plus the
        // occurrence itself
        let ge = |x: AuthorizedMessageVV| msg_le(gl, x);
        lemma_sorted_ge_suffix(z, gl);
        lemma_filter_multiset(z, t + dfil + g, ge);
        lemma_filter_concat(t + dfil, g, ge);
        lemma_filter_concat(t, dfil, ge);
        assert forall|q: int| 0 <= q < t.len() implies ge(#[trigger] t[q]) by {}
        lemma_filter_all(t, ge);
        assert(g.filter(ge).len() >= 1) by {
            assert(ge(g[g.len() - 1]));
            g.lemma_filter_contains(ge, g.len() - 1);
            let f = g.filter(ge);
            assert(f.contains(gl));
        }
        assert(z.filter(ge).to_multiset().len() == z.filter(ge).len());
        assert(((t + dfil + g).filter(ge)).to_multiset().len() == ((t + dfil + g).filter(
            ge,
        )).len());
        assert((t + dfil + g).filter(ge).len() == (t + dfil).filter(ge).len() + g.filter(
            ge,
        ).len());
        assert((t + dfil).filter(ge).len() == t.filter(ge).len() + dfil.filter(ge).len());
        assert(z.filter(ge).len() >= k + 1);
        assert(z.len() - i >= k + 1);
        // removing that occurrence leaves the kept suffix untouched
        lemma_trim_remove_low(z, i, k);
        let z2 = z.remove(i);
        lemma_sorted_remove(z, i);
        assert(z2.to_multiset() =~= z.to_multiset().remove(gl));
        assert(keys_determine(z2)) by {
            assert forall|a: AuthorizedMessageVV, b: AuthorizedMessageVV| #[trigger]
                z2.contains(a) && #[trigger] z2.contains(b) && msg_key_eq(a, b) implies a
                == b by {
                assert(z2.to_multiset().count(a) > 0);
                assert(z2.to_multiset().count(b) > 0);
                assert(z.to_multiset().count(a) > 0);
                assert(z.to_multiset().count(b) > 0);
                assert(z.contains(a) && z.contains(b));
            }
        }
        // one fewer low extra remains
        assert(z2.to_multiset() =~= (t + dfil + g.drop_last()).to_multiset()) by {
            assert(t + dfil + g =~= (t + dfil + g.drop_last()).push(gl));
            assert((t + dfil + g).to_multiset() =~= (t + dfil
                + g.drop_last()).to_multiset().insert(gl));
        }
        assert(forall|p: int, q: int|
            0 <= p < g.drop_last().len() && 0 <= q < t.len() ==> msg_le(
                #[trigger] g.drop_last()[p],
                #[trigger] t[q],
            )) by {
            assert(forall|p: int| 0 <= p < g.drop_last().len() ==> g.drop_last()[p] == g[p]);
        }
        lemma_trim_absorb_steps(z2, x1, t, dfil, g.drop_last(), k);
    }
}

/// LAW (merge absorption): merging a batch into an already canonical log
/// gives the same canonical log as merging into the raw history — what an
/// earlier merge trimmed away can never resurface or change the outcome.
pub proof fn lemma_canon_absorb(
    s: Seq<AuthorizedMessageVV>,
    d: Seq<AuthorizedMessageVV>,
    members_s: Seq<AuthorizedMemberV>,
    owner_id: MemberId,
    max_size: nat,
    max_recent: nat,
)
    requires
        keys_determine(s + d),
    ensures
        canon_log(
            canon_log(s, members_s, owner_id, max_size, max_recent) + d,
            members_s,
            owner_id,
            max_size,
            max_recent,
        ) == canon_log(s + d, members_s, owner_id, max_size, max_recent),
{
    broadcast use vstd::seq_lib::group_to_multiset_ensures;
    broadcast use vstd::multiset::group_multiset_axioms;
    broadcast use vstd::prelude::Seq::lemma_filter_pred;

    let keep = |m: AuthorizedMessageVV| msg_keep(members_s, owner_id, max_size, m);
    lemma_stable_sort(s);
    lemma_filter_sorted(stable_sort(s), keep);
    let f = stable_sort(s).filter(keep);
    let c = canon_log(s, members_s, owner_id, max_size, max_recent);
    // key determination transfers along multiset containment
    assert(keys_determine(s)) by {
        assert forall|x: AuthorizedMessageVV| #[trigger] s.contains(x) implies (s + d).contains(
            x,
        ) by {
            let w = choose|w: int| 0 <= w < s.len() && s[w] == x;
            assert((s + d)[w] == x);
        }
        keys_determine_sub(s + d, s);
    }
    assert(s.to_multiset() == stable_sort(s).to_multiset());
    // every element of f, c, d-filtered is drawn from s + d
    let dfil = d.filter(keep);
    // multiset bookkeeping: filtering commutes with sorting and splits
    // over concatenation
    lemma_stable_sort(s + d);
    lemma_filter_multiset(stable_sort(s + d), s + d, keep);
    lemma_filter_concat(s, d, keep);
    lemma_filter_multiset(stable_sort(s), s, keep);
    let x2 = stable_sort(s + d).filter(keep);
    lemma_filter_sorted(stable_sort(s + d), keep);
    assert(x2.to_multiset() == (s.filter(keep) + dfil).to_multiset());
    assert(keys_determine(x2)) by {
        lemma_filter_subset_contains(stable_sort(s + d), keep);
        assert forall|x: AuthorizedMessageVV| #[trigger] x2.to_multiset().contains(x) implies (
        s + d).to_multiset().contains(x) by {
            assert(x2.to_multiset().count(x) > 0);
            assert(x2.contains(x));
            assert(stable_sort(s + d).contains(x));
            assert(stable_sort(s + d).to_multiset().count(x) > 0);
            assert((s + d).to_multiset().count(x) > 0);
        }
        keys_determine_trans(s + d, x2);
    }
    lemma_stable_sort(c + d);
    lemma_filter_multiset(stable_sort(c + d), c + d, keep);
    lemma_filter_concat(c, d, keep);
    let x1 = stable_sort(c + d).filter(keep);
    lemma_filter_sorted(stable_sort(c + d), keep);
    // everything canonical passes the filter already
    assert(c.filter(keep) =~= c) by {
        assert forall|p: int| 0 <= p < c.len() implies keep(#[trigger] c[p]) by {
            if f.len() > max_recent {
                assert(c[p] == f[f.len() - max_recent + p]);
            }
        }
        lemma_filter_all(c, keep);
    }
    assert(x1.to_multiset() == (c + dfil).to_multiset());
    assert(keys_determine(x1)) by {
        keys_determine_cd(s, d, c, members_s, owner_id, max_size, max_recent);
        lemma_filter_subset_contains(stable_sort(c + d), keep);
        assert forall|x: AuthorizedMessageVV| #[trigger] x1.to_multiset().contains(x) implies (
        c + d).to_multiset().contains(x) by {
            assert(x1.to_multiset().count(x) > 0);
            assert(x1.contains(x));
            assert(stable_sort(c + d).contains(x));
            assert(stable_sort(c + d).to_multiset().count(x) > 0);
            assert((c + d).to_multiset().count(x) > 0);
        }
        keys_determine_trans(c + d, x1);
    }
    if f.len() <= max_recent {
        // nothing was trimmed: both canonical logs sort and filter the
        // same multiset
        assert(c == f);
        assert(x1.to_multiset() =~= x2.to_multiset()) by {
            vstd::seq_lib::lemma_multiset_commutative(c, dfil);
            vstd::seq_lib::lemma_multiset_commutative(s.filter(keep), dfil);
        }
        lemma_sorted_unique_keyed(x1, x2);
        assert(canon_log(c + d, members_s, owner_id, max_size, max_recent) == trim_front(
            x1,
            max_recent,
        ));
    } else {
        // the trimmed prefix g sits below everything kept, and the kept
        // part t has exactly the bound's length
        let t = f.subrange(f.len() - max_recent, f.len() as int);
        let g = f.subrange(0, f.len() - max_recent);
        assert(c == t);
        assert(f =~= g + t);
        assert(msgs_sorted(t)) by {
            assert forall|p: int, q: int|
                0 <= p < q < t.len() implies msg_le(#[trigger] t[p], #[trigger] t[q]) by {
                assert(t[p] == f[f.len() - max_recent + p]);
                assert(t[q] == f[f.len() - max_recent + q]);
            }
        }
        assert(forall|p: int, q: int|
            0 <= p < g.len() && 0 <= q < t.len() ==> msg_le(#[trigger] g[p], #[trigger] t[q]))
            by {
            assert(forall|p: int| 0 <= p < g.len() ==> g[p] == f[p]);
            assert(forall|q: int| 0 <= q < t.len() ==> t[q] == f[f.len() - max_recent + q]);
        }
        // x2's content is t + dfil + g, x1's is t + dfil
        assert(x2.to_multiset() =~= (t + dfil + g).to_multiset()) by {
            vstd::seq_lib::lemma_multiset_commutative(g, t);
            vstd::seq_lib::lemma_multiset_commutative(s.filter(keep), dfil);
            vstd::seq_lib::lemma_multiset_commutative(t, dfil);
            vstd::seq_lib::lemma_multiset_commutative(t + dfil, g);
        }
        assert(x1.to_multiset() =~= (t + dfil).to_multiset()) by {
            vstd::seq_lib::lemma_multiset_commutative(c, dfil);
            vstd::seq_lib::lemma_multiset_commutative(t, dfil);
        }
        lemma_trim_absorb_steps(x2, x1, t, dfil, g, max_recent);
    }
}

/// Key determination restricted to a sub-batch.
proof fn keys_determine_sub(whole: Seq<AuthorizedMessageVV>, part: Seq<AuthorizedMessageVV>)
    requires
        keys_determine(whole),
        forall|x: AuthorizedMessageVV| #[trigger] part.contains(x) ==> whole.contains(x),
    ensures
        keys_determine(part),
{
    assert forall|a: AuthorizedMessageVV, b: AuthorizedMessageVV| #[trigger]
        part.contains(a) && #[trigger] part.contains(b) && msg_key_eq(a, b) implies a == b by {
        assert(whole.contains(a) && whole.contains(b));
    }
}

/// Key determination carries across multiset-contained rearrangements.
proof fn keys_determine_trans(src: Seq<AuthorizedMessageVV>, dst: Seq<AuthorizedMessageVV>)
    requires
        keys_determine(src),
        forall|x: AuthorizedMessageVV|
            #[trigger] dst.to_multiset().contains(x) ==> src.to_multiset().contains(x),
    ensures
        keys_determine(dst),
{
    broadcast use vstd::seq_lib::group_to_multiset_ensures;

    assert forall|a: AuthorizedMessageVV, b: AuthorizedMessageVV| #[trigger]
        dst.contains(a) && #[trigger] dst.contains(b) && msg_key_eq(a, b) implies a == b by {
        assert(dst.to_multiset().count(a) > 0);
        assert(dst.to_multiset().count(b) > 0);
        assert(dst.to_multiset().contains(a));
        assert(dst.to_multiset().contains(b));
        assert(src.to_multiset().contains(a));
        assert(src.to_multiset().contains(b));
        assert(src.to_multiset().count(a) > 0);
        assert(src.to_multiset().count(b) > 0);
        assert(src.contains(a) && src.contains(b));
    }
}

/// Key determination covers the canonical log together with a new batch.
proof fn keys_determine_cd(
    s: Seq<AuthorizedMessageVV>,
    d: Seq<AuthorizedMessageVV>,
    c: Seq<AuthorizedMessageVV>,
    members_s: Seq<AuthorizedMemberV>,
    owner_id: MemberId,
    max_size: nat,
    max_recent: nat,
)
    requires
        keys_determine(s + d),
        c == canon_log(s, members_s, owner_id, max_size, max_recent),
    ensures
        keys_determine(c + d),
{
    broadcast use vstd::seq_lib::group_to_multiset_ensures;

    let keep = |m: AuthorizedMessageVV| msg_keep(members_s, owner_id, max_size, m);
    lemma_stable_sort(s);
    let f = stable_sort(s).filter(keep);
    lemma_filter_subset_contains(stable_sort(s), keep);
    assert forall|x: AuthorizedMessageVV| #[trigger] (c + d).contains(x) implies (
    s + d).contains(x) by {
        let w = choose|w: int| 0 <= w < (c + d).len() && (c + d)[w] == x;
        if w < c.len() {
            assert(c[w] == x);
            if f.len() > max_recent {
                assert(c[w] == f[f.len() - max_recent + w]);
            }
            assert(f.contains(x));
            assert(stable_sort(s).contains(x));
            assert(stable_sort(s).to_multiset().contains(x));
            assert(s.to_multiset().contains(x));
            assert(s.contains(x));
            let v = choose|v: int| 0 <= v < s.len() && s[v] == x;
            assert((s + d)[v] == x);
        } else {
            assert(d[w - c.len()] == x);
            assert((s + d)[s.len() + w - c.len()] == x);
        }
    }
    keys_determine_sub(s + d, c + d);
}

/// LAW (sequential convergence): starting from the same log, two replicas
/// that receive the same two message batches in opposite orders end with
/// identical canonical logs.
pub proof fn lemma_sequential_merge_convergence(
    s: Seq<AuthorizedMessageVV>,
    d1: Seq<AuthorizedMessageVV>,
    d2: Seq<AuthorizedMessageVV>,
    members_s: Seq<AuthorizedMemberV>,
    owner_id: MemberId,
    max_size: nat,
    max_recent: nat,
)
    requires
        keys_determine(s + d1 + d2),
    ensures
        canon_log(
            canon_log(s + d1, members_s, owner_id, max_size, max_recent) + d2,
            members_s,
            owner_id,
            max_size,
            max_recent,
        ) == canon_log(
            canon_log(s + d2, members_s, owner_id, max_size, max_recent) + d1,
            members_s,
            owner_id,
            max_size,
            max_recent,
        ),
{
    broadcast use vstd::seq_lib::group_to_multiset_ensures;

    vstd::seq_lib::lemma_multiset_commutative(s + d1, d2);
    vstd::seq_lib::lemma_multiset_commutative(s + d2, d1);
    vstd::seq_lib::lemma_multiset_commutative(s, d1);
    vstd::seq_lib::lemma_multiset_commutative(s, d2);
    assert((s + d1 + d2).to_multiset() =~= (s + d2 + d1).to_multiset());
    assert(keys_determine(s + d2 + d1)) by {
        keys_determine_trans(s + d1 + d2, s + d2 + d1);
    }
    lemma_canon_absorb(s + d1, d2, members_s, owner_id, max_size, max_recent);
    lemma_canon_absorb(s + d2, d1, members_s, owner_id, max_size, max_recent);
    lemma_canon_multiset_determined(
        s + d1 + d2,
        s + d2 + d1,
        members_s,
        owner_id,
        max_size,
        max_recent,
    );
}

/// Whether a message id occurs in a summary.
fn id_in_msg(list: &Vec<MessageId>, id: MessageId) -> (r: bool)
    ensures
        r == list@.contains(id),
{
    let n = list.len();
    let mut i: usize = 0;
    while i < n
        invariant
            0 <= i <= n,
            n == list@.len(),
            forall|k: int| 0 <= k < i ==> list@[k] != id,
        decreases n - i,
    {
        if list[i] == id {
            assert(list@.contains(id));
            return true;
        }
        i = i + 1;
    }
    assert(!list@.contains(id));
    false
}

} // verus!
