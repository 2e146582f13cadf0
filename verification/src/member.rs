//! Member registry: membership records, invite-chain authorization, and the
//! registry's composable-state surface (`verify` / `summarize` / `delta` /
//! `apply_delta`).
//!
//! A member is identified by the fast hash of its verifying key.  Every
//! `AuthorizedMember` carries a signature by its inviter over the member
//! payload; `verify` walks each member's `invited_by` pointers and accepts
//! only if every chain terminates at the room owner with all signatures
//! valid.  The owner itself must never appear in the registry.

use vstd::prelude::*;

use crate::crypto::{
    fast_hash_bytes, fast_hash_spec, sig_of, sig_valid, sign_bytes, verify_sig_bytes, vk_of_sk,
    vk_parses,
};
use crate::errors::RoomError;
use crate::seqs::{lemma_filter_none, lemma_filter_push};
use vstd::string::*;

verus! {

/// Stable identity of a member: the fast hash of its verifying key.
#[derive(Clone, Copy, PartialEq, Eq, Structural, Hash, PartialOrd, Ord, Debug)]
pub struct MemberId(pub i64);

/// Identity-bearing membership record; immutable once created.
#[derive(Clone, Debug, PartialEq)]
pub struct Member {
    /// Id of the room owner this record belongs to.
    pub owner_member_id: MemberId,
    /// Id of the member that authorized this record.
    pub invited_by: MemberId,
    /// The member's ed25519 verifying key (32 bytes).
    pub member_vk: Vec<u8>,
    /// Nickname chosen at invitation time.
    pub nickname: String,
}

/// Mathematical value of a `Member`.
pub ghost struct MemberV {
    pub owner_member_id: MemberId,
    pub invited_by: MemberId,
    pub member_vk: Seq<u8>,
    pub nickname: Seq<char>,
}

impl View for Member {
    type V = MemberV;

    open spec fn view(&self) -> MemberV {
        MemberV {
            owner_member_id: self.owner_member_id,
            invited_by: self.invited_by,
            member_vk: self.member_vk@,
            nickname: self.nickname@,
        }
    }
}

/// A member record together with its inviter's signature over the payload.
#[derive(Clone, Debug, PartialEq)]
pub struct AuthorizedMember {
    pub member: Member,
    /// ed25519 signature (64 bytes) by the inviter's signing key.
    pub signature: Vec<u8>,
}

/// Mathematical value of an `AuthorizedMember`.
pub ghost struct AuthorizedMemberV {
    pub member: MemberV,
    pub signature: Seq<u8>,
}

/// Mathematical value of a `MembersDelta`.
pub ghost struct MembersDeltaV {
    pub added: Seq<AuthorizedMemberV>,
    pub removed: Seq<MemberId>,
}

impl View for AuthorizedMember {
    type V = AuthorizedMemberV;

    open spec fn view(&self) -> AuthorizedMemberV {
        AuthorizedMemberV { member: self.member@, signature: self.signature@ }
    }
}

/// Ordered collection of authorized members; the owner never appears in it.
#[derive(Clone, Debug, PartialEq)]
pub struct Members {
    pub members: Vec<AuthorizedMember>,
}

impl View for Members {
    type V = Seq<AuthorizedMemberV>;

    open spec fn view(&self) -> Seq<AuthorizedMemberV> {
        self.members@.map_values(|am: AuthorizedMember| am@)
    }
}

impl Default for Members {
    /// An empty registry.
    fn default() -> (r: Members)
        ensures
            r@ =~= Seq::<AuthorizedMemberV>::empty(),
    {
        Members::new()
    }
}

/// Change between two membership summaries.
#[derive(Clone, Debug, PartialEq)]
pub struct MembersDelta {
    /// Members present now that the old summary lacked.
    pub added: Vec<AuthorizedMember>,
    /// Ids from the old summary that are no longer present.
    pub removed: Vec<MemberId>,
}

impl View for MembersDelta {
    type V = MembersDeltaV;

    open spec fn view(&self) -> MembersDeltaV {
        MembersDeltaV {
            added: self.added@.map_values(|am: AuthorizedMember| am@),
            removed: self.removed@,
        }
    }
}

// ------------------------------------------------------------------
// Identity
// ------------------------------------------------------------------

/// The member id derived from a verifying key.
pub open spec fn member_id_of(vk: Seq<u8>) -> MemberId {
    MemberId(fast_hash_spec(vk))
}

/// Id of an authorized member record.
pub open spec fn am_id(am: AuthorizedMemberV) -> MemberId {
    member_id_of(am.member.member_vk)
}

impl MemberId {
    /// Derive the id of a verifying key.
    pub fn new(member_vk: &[u8]) -> (r: MemberId)
        ensures
            r == member_id_of(member_vk@),
    {
        MemberId(fast_hash_bytes(member_vk))
    }
}

impl Member {
    /// This record's member id.
    pub fn id(&self) -> (r: MemberId)
        ensures
            r == member_id_of(self.member_vk@),
    {
        MemberId::new(self.member_vk.as_slice())
    }

    /// A field-for-field copy.
    pub fn duplicate(&self) -> (r: Member)
        ensures
            r@ == self@,
    {
        Member {
            owner_member_id: self.owner_member_id,
            invited_by: self.invited_by,
            member_vk: copy_bytes(&self.member_vk),
            nickname: copy_string(&self.nickname),
        }
    }
}

/// A verified copy of a byte vector.
pub fn copy_bytes(v: &Vec<u8>) -> (r: Vec<u8>)
    ensures
        r@ == v@,
{
    let r = v.clone();
    assert(r@ =~= v@);
    r
}

/// A verified copy of a string.
pub fn copy_string(s: &String) -> (r: String)
    ensures
        r@ == s@,
{
    s.clone()
}

/// Byte-for-byte equality of two byte strings.
pub fn bytes_eq(a: &[u8], b: &[u8]) -> (r: bool)
    ensures
        r == (a@ == b@),
{
    if a.len() != b.len() {
        return false;
    }
    let n = a.len();
    let mut i: usize = 0;
    while i < n
        invariant
            0 <= i <= n,
            n == a@.len(),
            n == b@.len(),
            forall|k: int| 0 <= k < i ==> a@[k] == b@[k],
        decreases n - i,
    {
        if *vstd::slice::slice_index_get(a, i) != *vstd::slice::slice_index_get(b, i) {
            return false;
        }
        i = i + 1;
    }
    proof {
        assert(a@ =~= b@);
    }
    true
}

// ------------------------------------------------------------------
// Signing payload
// ------------------------------------------------------------------

/// Little-endian bytes of a `u64`.
pub open spec fn u64_le_seq(x: u64) -> Seq<u8> {
    Seq::new(8, |i: int| ((x >> ((8 * i) as u64)) & 0xff) as u8)
}

/// Encoding of a member id in the signing payload: a sign byte followed by
/// the little-endian magnitude.
pub open spec fn id_bytes(id: MemberId) -> Seq<u8> {
    if id.0 >= 0 {
        seq![0u8] + u64_le_seq(id.0 as u64)
    } else {
        seq![1u8] + u64_le_seq((-(id.0 + 1)) as u64)
    }
}

/// The byte string an inviter signs to authorize a member record.
pub open spec fn member_msg(m: MemberV) -> Seq<u8> {
    id_bytes(m.owner_member_id) + id_bytes(m.invited_by) + u64_le_seq(m.member_vk.len() as u64)
        + m.member_vk + vstd::utf8::encode_utf8(m.nickname)
}

/// Little-endian bytes of a `u64`, executable.
pub fn u64_le_bytes(x: u64) -> (r: Vec<u8>)
    ensures
        r@ == u64_le_seq(x),
{
    let mut out: Vec<u8> = Vec::new();
    let mut i: u64 = 0;
    while i < 8
        invariant
            0 <= i <= 8,
            out@.len() == i,
            forall|j: int| 0 <= j < i ==> out@[j] == u64_le_seq(x)[j],
        decreases 8 - i,
    {
        let b: u8 = ((x >> (8 * i)) & 0xff) as u8;
        assert(b == u64_le_seq(x)[i as int]);
        out.push(b);
        i = i + 1;
    }
    assert(out@ =~= u64_le_seq(x));
    out
}

/// Executable encoding of a member id for the signing payload.
pub fn id_to_bytes(id: MemberId) -> (r: Vec<u8>)
    ensures
        r@ == id_bytes(id),
{
    let mut out: Vec<u8> = Vec::new();
    if id.0 >= 0 {
        out.push(0u8);
        let mut tail = u64_le_bytes(id.0 as u64);
        out.append(&mut tail);
    } else {
        out.push(1u8);
        let mag: i64 = -(id.0 + 1);
        let mut tail = u64_le_bytes(mag as u64);
        out.append(&mut tail);
    }
    assert(out@ =~= id_bytes(id));
    out
}

/// The exact byte string that is signed to authorize a member record.
pub fn member_signing_bytes(m: &Member) -> (r: Vec<u8>)
    ensures
        r@ == member_msg(m@),
{
    let mut out = id_to_bytes(m.owner_member_id);
    let mut part = id_to_bytes(m.invited_by);
    out.append(&mut part);
    let mut len_part = u64_le_bytes(m.member_vk.len() as u64);
    out.append(&mut len_part);
    let mut vk_part = copy_bytes(&m.member_vk);
    out.append(&mut vk_part);
    let mut nick = m.nickname.as_str().as_bytes_vec();
    out.append(&mut nick);
    assert(out@ =~= member_msg(m@));
    out
}

// ------------------------------------------------------------------
// Signature checks on member records
// ------------------------------------------------------------------

/// Whether an authorized member's signature verifies against a given
/// verifying key.
pub open spec fn auth_sig_ok(am: AuthorizedMemberV, vk: Seq<u8>) -> bool {
    &&& vk.len() == 32
    &&& vk_parses(vk)
    &&& am.signature.len() == 64
    &&& sig_valid(vk, member_msg(am.member), am.signature)
}

impl AuthorizedMember {
    /// Authorize a member record: sign its payload with the inviter's
    /// signing key.
    pub fn new(member: Member, inviter_signing_key: &[u8]) -> (r: AuthorizedMember)
        requires
            inviter_signing_key@.len() == 32,
        ensures
            r@.member == member@,
            r@.signature == sig_of(inviter_signing_key@, member_msg(member@)),
            r@.signature.len() == 64,
            sig_valid(vk_of_sk(inviter_signing_key@), member_msg(member@), r@.signature),
    {
        let payload = member_signing_bytes(&member);
        let signature = sign_bytes(inviter_signing_key, payload.as_slice());
        AuthorizedMember { member, signature }
    }

    /// Check this record's signature against an alleged inviter key.
    pub fn verify_signature(&self, inviter_vk: &[u8]) -> (r: Result<(), RoomError>)
        ensures
            r is Ok <==> auth_sig_ok(self@, inviter_vk@),
            r matches Err(e) ==> e == RoomError::SignatureInvalid,
    {
        if inviter_vk.len() != 32 || self.signature.len() != 64 {
            return Err(RoomError::SignatureInvalid);
        }
        let payload = member_signing_bytes(&self.member);
        if verify_sig_bytes(inviter_vk, payload.as_slice(), self.signature.as_slice()) {
            Ok(())
        } else {
            Err(RoomError::SignatureInvalid)
        }
    }

    /// A field-for-field copy.
    pub fn duplicate(&self) -> (r: AuthorizedMember)
        ensures
            r@ == self@,
    {
        AuthorizedMember { member: self.member.duplicate(), signature: copy_bytes(&self.signature) }
    }
}

// ------------------------------------------------------------------
// Registry lookup
// ------------------------------------------------------------------

/// Index of the first member with the given id, or -1 if absent.
pub open spec fn idx_first(s: Seq<AuthorizedMemberV>, id: MemberId) -> int
    decreases s.len(),
{
    if s.len() == 0 {
        -1
    } else if am_id(s[0]) == id {
        0
    } else {
        let rest = idx_first(s.drop_first(), id);
        if rest < 0 {
            -1
        } else {
            rest + 1
        }
    }
}

/// `idx_first` returns either -1 with no occurrence, or the least index of
/// an occurrence.
pub proof fn lemma_idx_first(s: Seq<AuthorizedMemberV>, id: MemberId)
    ensures
        -1 <= idx_first(s, id) < s.len(),
        idx_first(s, id) >= 0 ==> am_id(s[idx_first(s, id)]) == id,
        forall|k: int| 0 <= k < idx_first(s, id) ==> am_id(s[k]) != id,
        idx_first(s, id) == -1 ==> forall|k: int| 0 <= k < s.len() ==> am_id(s[k]) != id,
    decreases s.len(),
{
    if s.len() == 0 {
    } else if am_id(s[0]) == id {
    } else {
        lemma_idx_first(s.drop_first(), id);
        assert(forall|k: int| 1 <= k < s.len() ==> s[k] == s.drop_first()[k - 1]);
    }
}

/// Find the first member with the given id.
pub(crate) fn find_member_index(members: &Vec<AuthorizedMember>, id: MemberId) -> (r: Option<
    usize,
>)
    ensures
        r matches Some(i) ==> idx_first(members@.map_values(|am: AuthorizedMember| am@), id)
            == i as int,
        r is None ==> idx_first(members@.map_values(|am: AuthorizedMember| am@), id) == -1,
{
    let ghost s = members@.map_values(|am: AuthorizedMember| am@);
    proof {
        lemma_idx_first(s, id);
    }
    let n = members.len();
    let mut i: usize = 0;
    while i < n
        invariant
            0 <= i <= n,
            n == members@.len(),
            s == members@.map_values(|am: AuthorizedMember| am@),
            -1 <= idx_first(s, id) < s.len(),
            idx_first(s, id) >= 0 ==> am_id(s[idx_first(s, id)]) == id,
            forall|k: int| 0 <= k < idx_first(s, id) ==> am_id(s[k]) != id,
            idx_first(s, id) == -1 ==> forall|k: int| 0 <= k < s.len() ==> am_id(s[k]) != id,
            forall|k: int| 0 <= k < i ==> am_id(s[k]) != id,
        decreases n - i,
    {
        if members[i].member.id() == id {
            proof {
                // every index before i misses, and i hits, so i is least
                assert(am_id(s[i as int]) == id);
                assert(idx_first(s, id) != -1);
                assert(!(idx_first(s, id) < i)) by {
                    if 0 <= idx_first(s, id) < i {
                        assert(am_id(s[idx_first(s, id)]) != id);
                    }
                }
                assert(!(idx_first(s, id) > i)) by {
                    if idx_first(s, id) > i {
                        assert(am_id(s[i as int]) != id);
                    }
                }
            }
            return Some(i);
        }
        i = i + 1;
    }
    proof {
        if idx_first(s, id) >= 0 {
            assert(am_id(s[idx_first(s, id)]) != id);
        }
    }
    None
}

// ------------------------------------------------------------------
// Chain verification
// ------------------------------------------------------------------

/// Walk one member's invite chain toward the owner, spending one unit of
/// fuel per hop; running out of fuel means the chain cannot terminate.
/// Returns the failure, if any.
pub open spec fn chain_check(
    s: Seq<AuthorizedMemberV>,
    owner_vk: Seq<u8>,
    m: AuthorizedMemberV,
    fuel: nat,
) -> Option<RoomError>
    decreases fuel,
{
    if m.member.invited_by == member_id_of(owner_vk) {
        if auth_sig_ok(m, owner_vk) {
            None
        } else {
            Some(RoomError::SignatureInvalid)
        }
    } else {
        let j = idx_first(s, m.member.invited_by);
        if j < 0 {
            Some(RoomError::InviterNotFound)
        } else if !auth_sig_ok(m, s[j].member.member_vk) {
            Some(RoomError::SignatureInvalid)
        } else if fuel == 0 {
            Some(RoomError::InviteChainBroken)
        } else {
            chain_check(s, owner_vk, s[j], (fuel - 1) as nat)
        }
    }
}

/// The full check `verify` runs for one member: the owner must not be
/// registered, and the invite chain must resolve.
#[verifier::opaque]
pub open spec fn member_check(
    s: Seq<AuthorizedMemberV>,
    owner_vk: Seq<u8>,
    m: AuthorizedMemberV,
) -> Option<RoomError> {
    if am_id(m) == member_id_of(owner_vk) {
        Some(RoomError::OwnerInMembers)
    } else {
        chain_check(s, owner_vk, m, s.len() as nat)
    }
}

/// Index of the first member whose check fails, starting at `i`; -1 if all
/// pass.
pub open spec fn first_failing_from(s: Seq<AuthorizedMemberV>, owner_vk: Seq<u8>, i: int) -> int
    decreases s.len() - i,
{
    if i < 0 || i >= s.len() {
        -1
    } else if member_check(s, owner_vk, s[i]) is Some {
        i
    } else {
        first_failing_from(s, owner_vk, i + 1)
    }
}

/// The whole registry passes verification.
pub open spec fn members_verified(s: Seq<AuthorizedMemberV>, owner_vk: Seq<u8>) -> bool {
    forall|i: int| 0 <= i < s.len() ==> #[trigger] member_check(s, owner_vk, s[i]) is None
}

/// `first_failing_from(s, owner_vk, i)` finds exactly the least failing
/// index at or after `i`.
pub proof fn lemma_first_failing(s: Seq<AuthorizedMemberV>, owner_vk: Seq<u8>, i: int)
    requires
        0 <= i <= s.len(),
    ensures
        -1 <= first_failing_from(s, owner_vk, i) < s.len(),
        first_failing_from(s, owner_vk, i) == -1 <==> forall|k: int|
            i <= k < s.len() ==> #[trigger] member_check(s, owner_vk, s[k]) is None,
        first_failing_from(s, owner_vk, i) >= 0 ==> i <= first_failing_from(s, owner_vk, i)
            < s.len() && member_check(s, owner_vk, s[first_failing_from(s, owner_vk, i)]) is Some
            && forall|k: int|
            i <= k < first_failing_from(s, owner_vk, i) ==> #[trigger] member_check(
                s,
                owner_vk,
                s[k],
            ) is None,
    decreases s.len() - i,
{
    if i < s.len() {
        lemma_first_failing(s, owner_vk, i + 1);
    }
}

/// If everything before `i` passes and `i` fails, then `i` is the first
/// failing index.
#[verifier::rlimit(50)]
#[verifier::spinoff_prover]
pub proof fn lemma_first_failing_is(s: Seq<AuthorizedMemberV>, owner_vk: Seq<u8>, i: int)
    requires
        0 <= i < s.len(),
        forall|k: int| 0 <= k < i ==> #[trigger] member_check(s, owner_vk, s[k]) is None,
        member_check(s, owner_vk, s[i]) is Some,
    ensures
        first_failing_from(s, owner_vk, 0) == i,
{
    lemma_first_failing(s, owner_vk, 0);
    let f = first_failing_from(s, owner_vk, 0);
    if f == -1 {
        assert(member_check(s, owner_vk, s[i]) is None);
    } else if f < i {
        assert(member_check(s, owner_vk, s[f]) is None);
        assert(member_check(s, owner_vk, s[f]) is Some);
    } else if f > i {
        assert(member_check(s, owner_vk, s[i]) is None);
    }
}

impl Members {
    /// A record-for-record copy.
    pub fn duplicate(&self) -> (r: Members)
        ensures
            r@ == self@,
    {
        let ghost s = self@;
        let n = self.members.len();
        let mut out: Vec<AuthorizedMember> = Vec::new();
        let mut i: usize = 0;
        while i < n
            invariant
                0 <= i <= n,
                n == self.members@.len(),
                s == self@,
                out@.map_values(|am: AuthorizedMember| am@) =~= s.subrange(0, i as int),
            decreases n - i,
        {
            let ghost pre_map = out@.map_values(|am: AuthorizedMember| am@);
            out.push(self.members[i].duplicate());
            proof {
                assert(out@.map_values(|am: AuthorizedMember| am@) =~= pre_map.push(s[i as int]));
                assert(s.subrange(0, i + 1 as int) =~= s.subrange(0, i as int).push(s[i as int]));
            }
            i = i + 1;
        }
        let r = Members { members: out };
        proof {
            assert(s.subrange(0, n as int) =~= s);
            assert(r@ =~= s);
        }
        r
    }

    /// An empty registry.
    pub fn new() -> (r: Members)
        ensures
            r@ =~= Seq::<AuthorizedMemberV>::empty(),
    {
        let r = Members { members: Vec::new() };
        proof {
            assert(r.members@.map_values(|am: AuthorizedMember| am@) =~= Seq::<
                AuthorizedMemberV,
            >::empty());
        }
        r
    }

    /// Verify every member's invite chain against the room owner's key.
    ///
    /// Succeeds exactly when every member passes `member_check`; otherwise
    /// returns the first failure in registry order.
    pub fn verify(&self, owner_vk: &[u8]) -> (r: Result<(), RoomError>)
        ensures
            r is Ok <==> members_verified(self@, owner_vk@),
            r matches Err(e) ==> {
                let f = first_failing_from(self@, owner_vk@, 0);
                &&& 0 <= f < self@.len()
                &&& member_check(self@, owner_vk@, self@[f]) == Some(e)
            },
    {
        let ghost s = self@;
        let owner_id = MemberId::new(owner_vk);
        let n = self.members.len();
        proof {
            lemma_first_failing(s, owner_vk@, 0);
        }
        let mut i: usize = 0;
        while i < n
            invariant
                0 <= i <= n,
                n == self.members@.len(),
                s == self@,
                owner_id == member_id_of(owner_vk@),
                forall|k: int| 0 <= k < i ==> #[trigger] member_check(s, owner_vk@, s[k]) is None,
            decreases n - i,
        {
            proof {
                lemma_first_failing(s, owner_vk@, 0);
            }
            let am = &self.members[i];
            if am.member.id() == owner_id {
                proof {
                    reveal(member_check);
                    assert(member_check(s, owner_vk@, s[i as int]) == Some(
                        RoomError::OwnerInMembers,
                    ));
                    lemma_first_failing_is(s, owner_vk@, i as int);
                }
                return Err(RoomError::OwnerInMembers);
            }
            match self.check_chain(i, owner_vk, owner_id) {
                None => {
                    proof {
                        reveal(member_check);
                        assert(member_check(s, owner_vk@, s[i as int]) is None);
                    }
                },
                Some(e) => {
                    proof {
                        reveal(member_check);
                        assert(member_check(s, owner_vk@, s[i as int]) == Some(e));
                        lemma_first_failing_is(s, owner_vk@, i as int);
                    }
                    return Err(e);
                },
            }
            i = i + 1;
        }
        proof {
            lemma_first_failing(s, owner_vk@, 0);
        }
        Ok(())
    }

    /// Walk the invite chain of the member at `start` toward the owner.
    fn check_chain(&self, start: usize, owner_vk: &[u8], owner_id: MemberId) -> (r: Option<
        RoomError,
    >)
        requires
            start < self.members@.len(),
            owner_id == member_id_of(owner_vk@),
        ensures
            r == chain_check(self@, owner_vk@, self@[start as int], self@.len() as nat),
    {
        let ghost s = self@;
        let n = self.members.len();
        let mut current: usize = start;
        let mut fuel: usize = n;
        loop
            invariant
                current < n,
                fuel <= n,
                n == self.members@.len(),
                s == self@,
                owner_id == member_id_of(owner_vk@),
                chain_check(s, owner_vk@, s[start as int], s.len() as nat) == chain_check(
                    s,
                    owner_vk@,
                    s[current as int],
                    fuel as nat,
                ),
            decreases fuel,
        {
            let am = &self.members[current];
            if am.member.invited_by == owner_id {
                let ok = am.verify_signature(owner_vk).is_ok();
                if ok {
                    return None;
                } else {
                    return Some(RoomError::SignatureInvalid);
                }
            }
            match find_member_index(&self.members, am.member.invited_by) {
                None => {
                    return Some(RoomError::InviterNotFound);
                },
                Some(j) => {
                    proof {
                        lemma_idx_first(s, am.member@.invited_by);
                    }
                    let inviter = &self.members[j];
                    if am.verify_signature(inviter.member.member_vk.as_slice()).is_err() {
                        return Some(RoomError::SignatureInvalid);
                    }
                    if fuel == 0 {
                        return Some(RoomError::InviteChainBroken);
                    }
                    current = j;
                    fuel = fuel - 1;
                },
            }
        }
    }
}

// ------------------------------------------------------------------
// Summaries and deltas
// ------------------------------------------------------------------

/// Whether an id occurs in a summary.
fn id_in(list: &Vec<MemberId>, id: MemberId) -> (r: bool)
    ensures
        r == list@.contains(id),
{
    let n = list.len();
    let mut i: usize = 0;
    while i < n
        invariant
            0 <= i <= n,
            n == list@.len(),
            forall|k: int| 0 <= k < i ==> list@[k] != id,
        decreases n - i,
    {
        if list[i] == id {
            assert(list@.contains(id));
            return true;
        }
        i = i + 1;
    }
    assert(!list@.contains(id));
    false
}

/// The ids named by a registry, in registry order.
pub open spec fn summary_of(s: Seq<AuthorizedMemberV>) -> Seq<MemberId> {
    s.map_values(|am: AuthorizedMemberV| am_id(am))
}

/// Members of `s` whose id is not in the old summary.
pub open spec fn delta_added(s: Seq<AuthorizedMemberV>, old: Seq<MemberId>) -> Seq<
    AuthorizedMemberV,
> {
    s.filter(|am: AuthorizedMemberV| !old.contains(am_id(am)))
}

/// Ids of the old summary that no member of `s` carries.
pub open spec fn delta_removed(s: Seq<AuthorizedMemberV>, old: Seq<MemberId>) -> Seq<MemberId> {
    old.filter(|id: MemberId| idx_first(s, id) == -1)
}

/// Members surviving removal, followed by the added records.
pub open spec fn delta_applied(
    s: Seq<AuthorizedMemberV>,
    removed: Seq<MemberId>,
    added: Seq<AuthorizedMemberV>,
) -> Seq<AuthorizedMemberV> {
    s.filter(|am: AuthorizedMemberV| !removed.contains(am_id(am))) + added
}

impl Members {
    /// Set of currently present member ids (as an ordered list).
    pub fn summarize(&self) -> (r: Vec<MemberId>)
        ensures
            r@ == summary_of(self@),
    {
        let ghost s = self@;
        let n = self.members.len();
        let mut out: Vec<MemberId> = Vec::new();
        let mut i: usize = 0;
        while i < n
            invariant
                0 <= i <= n,
                n == self.members@.len(),
                s == self@,
                out@.len() == i,
                forall|k: int| 0 <= k < i ==> out@[k] == am_id(s[k]),
            decreases n - i,
        {
            out.push(self.members[i].member.id());
            i = i + 1;
        }
        assert(out@ =~= summary_of(s));
        out
    }

    /// Change from an older summary to this registry: records the summary
    /// lacks, and summary ids that are gone.
    pub fn delta(&self, old_state_summary: &Vec<MemberId>) -> (r: MembersDelta)
        ensures
            r@.added == delta_added(self@, old_state_summary@),
            r@.removed == delta_removed(self@, old_state_summary@),
    {
        let ghost s = self@;
        let ghost old = old_state_summary@;
        let n = self.members.len();
        let mut added: Vec<AuthorizedMember> = Vec::new();
        let mut i: usize = 0;
        while i < n
            invariant
                0 <= i <= n,
                n == self.members@.len(),
                s == self@,
                old == old_state_summary@,
                added@.map_values(|am: AuthorizedMember| am@) == s.subrange(0, i as int).filter(
                    |am: AuthorizedMemberV| !old.contains(am_id(am)),
                ),
            decreases n - i,
        {
            let ghost pre = s.subrange(0, i as int);
            let am = &self.members[i];
            if !id_in(old_state_summary, am.member.id()) {
                added.push(am.duplicate());
            }
            proof {
                assert(s.subrange(0, i + 1 as int) =~= pre.push(s[i as int]));
                lemma_filter_push(pre, s[i as int], |am: AuthorizedMemberV| !old.contains(am_id(am)));
                if !old.contains(am_id(s[i as int])) {
                    assert(added@.map_values(|am: AuthorizedMember| am@) =~= pre.filter(
                        |am: AuthorizedMemberV| !old.contains(am_id(am)),
                    ).push(s[i as int]));
                }
            }
            i = i + 1;
        }
        proof {
            assert(s.subrange(0, n as int) =~= s);
        }
        let m = old_state_summary.len();
        let mut removed: Vec<MemberId> = Vec::new();
        let mut j: usize = 0;
        while j < m
            invariant
                0 <= j <= m,
                m == old_state_summary@.len(),
                s == self@,
                old == old_state_summary@,
                removed@ == old.subrange(0, j as int).filter(
                    |id: MemberId| idx_first(s, id) == -1,
                ),
            decreases m - j,
        {
            let ghost pre = old.subrange(0, j as int);
            let id = old_state_summary[j];
            if find_member_index(&self.members, id).is_none() {
                removed.push(id);
            }
            proof {
                assert(old.subrange(0, j + 1 as int) =~= pre.push(old[j as int]));
                lemma_filter_push(pre, old[j as int], |id: MemberId| idx_first(s, id) == -1);
            }
            j = j + 1;
        }
        proof {
            assert(old.subrange(0, m as int) =~= old);
        }
        MembersDelta { added, removed }
    }
}

// ------------------------------------------------------------------
// Applying a delta, with deterministic capacity eviction
// ------------------------------------------------------------------

/// A member no other member names as its inviter.
pub open spec fn is_leaf_at(s: Seq<AuthorizedMemberV>, i: int) -> bool {
    forall|j: int|
        0 <= j < s.len() && j != i ==> (#[trigger] s[j]).member.invited_by != am_id(s[i])
}

/// Left-to-right scan for the eviction victim: among eligible members
/// (leaves, unless `leaf_only` is off), the first one carrying the largest
/// id.  `best` is the best index seen so far, -1 for none.
pub open spec fn victim_scan(s: Seq<AuthorizedMemberV>, i: int, best: int, leaf_only: bool) -> int
    decreases s.len() - i,
{
    if !(0 <= i < s.len()) {
        best
    } else {
        let eligible = !leaf_only || is_leaf_at(s, i);
        let better = eligible && (best < 0 || am_id(s[i]).0 > am_id(s[best]).0);
        victim_scan(s, i + 1, if better { i } else { best }, leaf_only)
    }
}

/// The member evicted when the registry is over capacity: the leaf with the
/// largest id, or, if no leaf exists, the member with the largest id.  The
/// choice depends only on the registry's content, so replicas evict alike.
pub open spec fn victim(s: Seq<AuthorizedMemberV>) -> int {
    let leaf_victim = victim_scan(s, 0, -1, true);
    if leaf_victim >= 0 {
        leaf_victim
    } else {
        victim_scan(s, 0, -1, false)
    }
}

/// Result of evicting victims until the registry fits the bound.
pub open spec fn evict_spec(s: Seq<AuthorizedMemberV>, max: nat) -> Seq<AuthorizedMemberV>
    decreases s.len(),
{
    if s.len() <= max {
        s
    } else {
        let v = victim(s);
        let v_clamped = if 0 <= v < s.len() {
            v
        } else {
            0
        };
        evict_spec(s.remove(v_clamped), max)
    }
}

/// The scan stays within bounds and, started empty, finds something when
/// ignoring leaves.
pub proof fn lemma_victim_scan_range(s: Seq<AuthorizedMemberV>, i: int, best: int, leaf_only: bool)
    requires
        0 <= i <= s.len(),
        -1 <= best < s.len(),
    ensures
        -1 <= victim_scan(s, i, best, leaf_only) < s.len(),
        best >= 0 ==> victim_scan(s, i, best, leaf_only) >= 0,
        !leaf_only && i < s.len() ==> victim_scan(s, i, best, leaf_only) >= 0,
    decreases s.len() - i,
{
    if i < s.len() {
        let eligible = !leaf_only || is_leaf_at(s, i);
        let better = eligible && (best < 0 || am_id(s[i]).0 > am_id(s[best]).0);
        lemma_victim_scan_range(s, i + 1, if better { i } else { best }, leaf_only);
    }
}

/// In a non-empty registry the victim is a valid index.
pub proof fn lemma_victim_in_range(s: Seq<AuthorizedMemberV>)
    requires
        s.len() > 0,
    ensures
        0 <= victim(s) < s.len(),
{
    lemma_victim_scan_range(s, 0, -1, true);
    lemma_victim_scan_range(s, 0, -1, false);
}

/// How long the registry is after eviction.
pub proof fn lemma_evict_len(s: Seq<AuthorizedMemberV>, max: nat)
    ensures
        s.len() <= max ==> evict_spec(s, max) == s,
        s.len() > max ==> evict_spec(s, max).len() == max,
    decreases s.len(),
{
    if s.len() > max {
        let v = victim(s);
        let v_clamped: int = if 0 <= v < s.len() {
            v
        } else {
            0
        };
        lemma_evict_len(s.remove(v_clamped), max);
    }
}

/// Whether some member of `s` carries this id.
pub open spec fn has_member_id(s: Seq<AuthorizedMemberV>, id: MemberId) -> bool {
    idx_first(s, id) >= 0
}

/// Whether another member is naming `id` as its inviter (used by the
/// eviction scan).
fn is_leaf_exec(members: &Vec<AuthorizedMember>, i: usize) -> (r: bool)
    requires
        i < members@.len(),
    ensures
        r == is_leaf_at(members@.map_values(|am: AuthorizedMember| am@), i as int),
{
    let ghost s = members@.map_values(|am: AuthorizedMember| am@);
    let id = members[i].member.id();
    let n = members.len();
    let mut j: usize = 0;
    while j < n
        invariant
            0 <= j <= n,
            n == members@.len(),
            s == members@.map_values(|am: AuthorizedMember| am@),
            i < n,
            id == am_id(s[i as int]),
            forall|k: int| 0 <= k < j && k != i ==> (#[trigger] s[k]).member.invited_by != id,
        decreases n - j,
    {
        if j != i {
            if members[j].member.invited_by == id {
                proof {
                    assert(s[j as int] == members@[j as int]@);
                    assert((s[j as int]).member.invited_by == am_id(s[i as int]));
                    assert(!is_leaf_at(s, i as int));
                }
                return false;
            }
        }
        proof {
            assert(s[j as int] == members@[j as int]@);
        }
        j = j + 1;
    }
    true
}

/// Pick the eviction victim of a non-empty registry.
fn pick_victim(members: &Vec<AuthorizedMember>) -> (r: usize)
    requires
        members@.len() > 0,
    ensures
        r as int == victim(members@.map_values(|am: AuthorizedMember| am@)),
        r < members@.len(),
{
    let ghost s = members@.map_values(|am: AuthorizedMember| am@);
    proof {
        lemma_victim_in_range(s);
    }
    let n = members.len();
    // pass 1: leaves only
    let mut best: Option<usize> = None;
    let mut best_id: i64 = 0;
    let mut i: usize = 0;
    while i < n
        invariant
            0 <= i <= n,
            n == members@.len(),
            s == members@.map_values(|am: AuthorizedMember| am@),
            match best {
                Some(b) => b < n && victim_scan(s, 0, -1, true) == victim_scan(
                    s,
                    i as int,
                    b as int,
                    true,
                ) && best_id == am_id(s[b as int]).0,
                None => victim_scan(s, 0, -1, true) == victim_scan(s, i as int, -1, true),
            },
        decreases n - i,
    {
        let leaf = is_leaf_exec(members, i);
        let this_id = members[i].member.id();
        let better = leaf && match best {
            Some(_) => this_id.0 > best_id,
            None => true,
        };
        if better {
            best = Some(i);
            best_id = this_id.0;
        }
        i = i + 1;
    }
    match best {
        Some(b) => {
            assert(victim_scan(s, n as int, b as int, true) == b as int);
            return b;
        },
        None => {
            assert(victim_scan(s, 0, -1, true) == -1);
        },
    }
    // pass 2: any member
    let mut best2: Option<usize> = None;
    let mut best_id2: i64 = 0;
    let mut k: usize = 0;
    while k < n
        invariant
            0 <= k <= n,
            n == members@.len(),
            s == members@.map_values(|am: AuthorizedMember| am@),
            match best2 {
                Some(b) => b < n && victim_scan(s, 0, -1, false) == victim_scan(
                    s,
                    k as int,
                    b as int,
                    false,
                ) && best_id2 == am_id(s[b as int]).0,
                None => victim_scan(s, 0, -1, false) == victim_scan(s, k as int, -1, false),
            },
        decreases n - k,
    {
        let this_id = members[k].member.id();
        let better = match best2 {
            Some(_) => this_id.0 > best_id2,
            None => true,
        };
        if better {
            best2 = Some(k);
            best_id2 = this_id.0;
        }
        k = k + 1;
    }
    match best2 {
        Some(b) => {
            assert(victim_scan(s, n as int, b as int, false) == b as int);
            b
        },
        None => {
            // the second scan of a non-empty registry always finds a member
            proof {
                lemma_victim_scan_range(s, 0, -1, false);
            }
            assert(false);
            0
        },
    }
}

impl Members {
    /// The registry as a map from raw member id to member record.  When
    /// two records collide on an id (which verification rules out), the
    /// later one wins, as in a plain collect.
    pub fn members_by_member_id(&self) -> (r: std::collections::HashMap<i64, Member>)
        ensures
            forall|k: i64| #[trigger] r@.contains_key(k) <==> has_member_id(self@, MemberId(k)),
            forall|k: i64|
                #[trigger] r@.contains_key(k) ==> exists|j: int|
                    0 <= j < self@.len() && am_id(#[trigger] self@[j]) == MemberId(k)
                        && r@[k]@ == self@[j].member,
    {
        let ghost s = self@;
        let n = self.members.len();
        let mut map: std::collections::HashMap<i64, Member> = std::collections::HashMap::new();
        let mut i: usize = 0;
        while i < n
            invariant
                0 <= i <= n,
                n == self.members@.len(),
                s == self@,
                vstd::std_specs::hash::obeys_key_model::<i64>(),
                forall|k: i64|
                    #[trigger] map@.contains_key(k) <==> exists|j: int|
                        0 <= j < i && am_id(#[trigger] s[j]) == MemberId(k),
                forall|k: i64|
                    #[trigger] map@.contains_key(k) ==> exists|j: int|
                        0 <= j < i && am_id(#[trigger] s[j]) == MemberId(k) && map@[k]@
                            == s[j].member,
            decreases n - i,
        {
            let am = &self.members[i];
            let id = am.member.id();
            map.insert(id.0, am.member.duplicate());
            proof {
                assert(am_id(s[i as int]) == id);
            }
            i = i + 1;
        }
        proof {
            lemma_idx_first_exists(s);
        }
        map
    }
}

/// Occurrence of an id in the registry coincides with `idx_first` finding
/// it.
proof fn lemma_idx_first_exists(s: Seq<AuthorizedMemberV>)
    ensures
        forall|id: MemberId|
            #[trigger] has_member_id(s, id) <==> exists|j: int|
                0 <= j < s.len() && am_id(#[trigger] s[j]) == id,
{
    assert forall|id: MemberId| #[trigger]
        has_member_id(s, id) <==> exists|j: int|
            0 <= j < s.len() && am_id(#[trigger] s[j]) == id by {
        lemma_idx_first(s, id);
        if has_member_id(s, id) {
            assert(am_id(s[idx_first(s, id)]) == id);
        }
    }
}

// ------------------------------------------------------------------
// Laws of invite-chain verification
// ------------------------------------------------------------------

/// Hypothesis of the chain law: every member's inviter resolves (to the
/// owner or to the first registry entry with the inviter's id), the link
/// signature verifies against that inviter's key, the owner's id is absent,
/// and a depth witness decreases strictly along every chain, bounded by the
/// registry size.
pub open spec fn links_all_signed(
    s: Seq<AuthorizedMemberV>,
    owner_vk: Seq<u8>,
    depth: Seq<int>,
) -> bool {
    &&& depth.len() == s.len()
    &&& forall|i: int| 0 <= i < s.len() ==> 0 <= #[trigger] depth[i] < s.len()
    &&& forall|i: int| 0 <= i < s.len() ==> #[trigger] am_id(s[i]) != member_id_of(owner_vk)
    &&& forall|i: int|
        0 <= i < s.len() ==> {
            let m = #[trigger] s[i];
            if m.member.invited_by == member_id_of(owner_vk) {
                auth_sig_ok(m, owner_vk)
            } else {
                let j = idx_first(s, m.member.invited_by);
                &&& 0 <= j < s.len()
                &&& auth_sig_ok(m, s[j].member.member_vk)
                &&& depth[j] < depth[i]
            }
        }
}

/// A correctly signed chain passes `chain_check` whenever the fuel exceeds
/// its depth.
proof fn lemma_chain_check_ok(
    s: Seq<AuthorizedMemberV>,
    owner_vk: Seq<u8>,
    depth: Seq<int>,
    i: int,
    fuel: nat,
)
    requires
        links_all_signed(s, owner_vk, depth),
        0 <= i < s.len(),
        depth[i] < fuel,
    ensures
        chain_check(s, owner_vk, s[i], fuel) is None,
    decreases fuel,
{
    let m = s[i];
    if m.member.invited_by != member_id_of(owner_vk) {
        let j = idx_first(s, m.member.invited_by);
        lemma_chain_check_ok(s, owner_vk, depth, j, (fuel - 1) as nat);
    }
}

/// LAW: in a registry where every invite chain is correctly signed and
/// terminates at the owner, and the owner itself is absent, `verify`
/// succeeds.
pub proof fn lemma_signed_chains_verify(
    s: Seq<AuthorizedMemberV>,
    owner_vk: Seq<u8>,
    depth: Seq<int>,
)
    requires
        links_all_signed(s, owner_vk, depth),
    ensures
        members_verified(s, owner_vk),
{
    reveal(member_check);
    assert forall|i: int| 0 <= i < s.len() implies #[trigger] member_check(
        s,
        owner_vk,
        s[i],
    ) is None by {
        lemma_chain_check_ok(s, owner_vk, depth, i, s.len() as nat);
    }
}

/// LAW: a registry that carries the owner's own id never verifies; the
/// offending member fails with `OwnerInMembers`.
pub proof fn lemma_owner_in_members_fails(s: Seq<AuthorizedMemberV>, owner_vk: Seq<u8>, i: int)
    requires
        0 <= i < s.len(),
        am_id(s[i]) == member_id_of(owner_vk),
    ensures
        member_check(s, owner_vk, s[i]) == Some(RoomError::OwnerInMembers),
        !members_verified(s, owner_vk),
{
    reveal(member_check);
}

/// LAW: a member whose inviter is neither the owner nor present in the
/// registry fails with `InviterNotFound`, so the registry does not verify.
pub proof fn lemma_missing_inviter(s: Seq<AuthorizedMemberV>, owner_vk: Seq<u8>, i: int)
    requires
        0 <= i < s.len(),
        am_id(s[i]) != member_id_of(owner_vk),
        s[i].member.invited_by != member_id_of(owner_vk),
        !has_member_id(s, s[i].member.invited_by),
    ensures
        member_check(s, owner_vk, s[i]) == Some(RoomError::InviterNotFound),
        !members_verified(s, owner_vk),
{
    reveal(member_check);
    lemma_idx_first(s, s[i].member.invited_by);
}

impl Members {
    /// Apply a delta: drop removed ids, append added records, then evict
    /// deterministically while the registry exceeds `max_members`.
    ///
    /// Incoming records are trusted to carry valid signatures here;
    /// re-verification happens at the aggregate level.
    pub fn apply_delta(&self, delta: &MembersDelta, max_members: usize) -> (r: Members)
        ensures
            r@ == evict_spec(
                delta_applied(self@, delta@.removed, delta@.added),
                max_members as nat,
            ),
            delta_applied(self@, delta@.removed, delta@.added).len() <= max_members ==> r@
                == delta_applied(self@, delta@.removed, delta@.added),
            r@.len() <= delta_applied(self@, delta@.removed, delta@.added).len(),
            r@.len() <= max_members,
    {
        let ghost s = self@;
        let ghost removed = delta@.removed;
        let ghost added = delta@.added;
        let n = self.members.len();
        let mut out: Vec<AuthorizedMember> = Vec::new();
        let mut i: usize = 0;
        while i < n
            invariant
                0 <= i <= n,
                n == self.members@.len(),
                s == self@,
                removed == delta@.removed,
                out@.map_values(|am: AuthorizedMember| am@) == s.subrange(0, i as int).filter(
                    |am: AuthorizedMemberV| !removed.contains(am_id(am)),
                ),
            decreases n - i,
        {
            let ghost pre = s.subrange(0, i as int);
            let am = &self.members[i];
            if !id_in(&delta.removed, am.member.id()) {
                out.push(am.duplicate());
            }
            proof {
                assert(s.subrange(0, i + 1 as int) =~= pre.push(s[i as int]));
                lemma_filter_push(
                    pre,
                    s[i as int],
                    |am: AuthorizedMemberV| !removed.contains(am_id(am)),
                );
                if !removed.contains(am_id(s[i as int])) {
                    assert(out@.map_values(|am: AuthorizedMember| am@) =~= pre.filter(
                        |am: AuthorizedMemberV| !removed.contains(am_id(am)),
                    ).push(s[i as int]));
                }
            }
            i = i + 1;
        }
        proof {
            assert(s.subrange(0, n as int) =~= s);
        }
        let a = delta.added.len();
        let mut j: usize = 0;
        while j < a
            invariant
                0 <= j <= a,
                a == delta.added@.len(),
                s == self@,
                removed == delta@.removed,
                added == delta@.added,
                out@.map_values(|am: AuthorizedMember| am@) == s.filter(
                    |am: AuthorizedMemberV| !removed.contains(am_id(am)),
                ) + added.subrange(0, j as int),
            decreases a - j,
        {
            let ghost pre_map = out@.map_values(|am: AuthorizedMember| am@);
            out.push(delta.added[j].duplicate());
            proof {
                assert(added[j as int] == delta.added@[j as int]@);
                assert(out@.map_values(|am: AuthorizedMember| am@) =~= pre_map.push(
                    added[j as int],
                ));
                assert(added.subrange(0, j + 1 as int) =~= added.subrange(0, j as int).push(
                    added[j as int],
                ));
                assert(out@.map_values(|am: AuthorizedMember| am@) =~= s.filter(
                    |am: AuthorizedMemberV| !removed.contains(am_id(am)),
                ) + added.subrange(0, j + 1 as int));
            }
            j = j + 1;
        }
        proof {
            assert(added.subrange(0, a as int) =~= added);
            assert(out@.map_values(|am: AuthorizedMember| am@) =~= delta_applied(
                s,
                removed,
                added,
            ));
        }
        let ghost combined = delta_applied(s, removed, added);
        // evict deterministically while over capacity
        while out.len() > max_members
            invariant
                evict_spec(combined, max_members as nat) == evict_spec(
                    out@.map_values(|am: AuthorizedMember| am@),
                    max_members as nat,
                ),
            decreases out@.len(),
        {
            let ghost cur = out@.map_values(|am: AuthorizedMember| am@);
            let v = pick_victim(&out);
            out.remove(v);
            proof {
                assert(out@.map_values(|am: AuthorizedMember| am@) =~= cur.remove(v as int));
            }
        }
        proof {
            lemma_evict_len(combined, max_members as nat);
            let fin = out@.map_values(|am: AuthorizedMember| am@);
            assert(evict_spec(fin, max_members as nat) == fin);
            lemma_evict_len(fin, max_members as nat);
        }
        Members { members: out }
    }
}

} // verus!
