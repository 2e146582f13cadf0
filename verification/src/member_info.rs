//! Per-member mutable profile metadata (nickname), versioned per member and
//! self-signed: a member may only update their own info.

use vstd::prelude::*;

use crate::crypto::{sig_of, sig_valid, sign_bytes, verify_sig_bytes, vk_of_sk, vk_parses};
use crate::errors::RoomError;
use crate::member::{
    copy_bytes, copy_string, has_member_id, id_bytes, id_to_bytes, idx_first, lemma_idx_first,
    member_id_of, u64_le_bytes, u64_le_seq, AuthorizedMemberV, MemberId, Members,
};
use crate::seqs::{lemma_filter_concat, lemma_filter_push};
use vstd::string::*;

verus! {

/// One member's profile record.
#[derive(Clone, Debug, PartialEq)]
pub struct MemberInfo {
    /// Whose profile this is.
    pub member_id: MemberId,
    /// Monotonically increasing per member; higher versions win on merge.
    pub version: u32,
    /// The nickname the member prefers.
    pub preferred_nickname: String,
}

/// Mathematical value of a `MemberInfo`.
pub ghost struct MemberInfoV {
    pub member_id: MemberId,
    pub version: u32,
    pub preferred_nickname: Seq<char>,
}

impl View for MemberInfo {
    type V = MemberInfoV;

    open spec fn view(&self) -> MemberInfoV {
        MemberInfoV {
            member_id: self.member_id,
            version: self.version,
            preferred_nickname: self.preferred_nickname@,
        }
    }
}

/// A profile record signed by the member's own key.
#[derive(Clone, Debug, PartialEq)]
pub struct AuthorizedMemberInfo {
    pub member_info: MemberInfo,
    /// ed25519 signature (64 bytes) by the member's own signing key.
    pub signature: Vec<u8>,
}

/// Mathematical value of an `AuthorizedMemberInfo`.
pub ghost struct AuthorizedMemberInfoV {
    pub member_info: MemberInfoV,
    pub signature: Seq<u8>,
}

impl View for AuthorizedMemberInfo {
    type V = AuthorizedMemberInfoV;

    open spec fn view(&self) -> AuthorizedMemberInfoV {
        AuthorizedMemberInfoV { member_info: self.member_info@, signature: self.signature@ }
    }
}

/// The member info store.
#[derive(Clone, Debug, PartialEq)]
pub struct MemberInfoV1 {
    pub member_info: Vec<AuthorizedMemberInfo>,
}

impl View for MemberInfoV1 {
    type V = Seq<AuthorizedMemberInfoV>;

    open spec fn view(&self) -> Seq<AuthorizedMemberInfoV> {
        self.member_info@.map_values(|i: AuthorizedMemberInfo| i@)
    }
}

// ------------------------------------------------------------------
// Signing
// ------------------------------------------------------------------

/// The byte string a member signs to update their own profile.
pub open spec fn info_msg(i: MemberInfoV) -> Seq<u8> {
    id_bytes(i.member_id) + u64_le_seq(i.version as u64) + vstd::utf8::encode_utf8(
        i.preferred_nickname,
    )
}

/// The exact byte string that is signed to authorize a profile record.
pub fn info_signing_bytes(i: &MemberInfo) -> (r: Vec<u8>)
    ensures
        r@ == info_msg(i@),
{
    let mut out = id_to_bytes(i.member_id);
    let mut part = u64_le_bytes(i.version as u64);
    out.append(&mut part);
    let mut nick_part = i.preferred_nickname.as_str().as_bytes_vec();
    out.append(&mut nick_part);
    assert(out@ =~= info_msg(i@));
    out
}

/// Whether a profile record's signature verifies against a verifying key.
pub open spec fn info_sig_ok(i: AuthorizedMemberInfoV, vk: Seq<u8>) -> bool {
    &&& vk.len() == 32
    &&& vk_parses(vk)
    &&& i.signature.len() == 64
    &&& sig_valid(vk, info_msg(i.member_info), i.signature)
}

impl MemberInfo {
    /// A field-for-field copy.
    pub fn duplicate(&self) -> (r: MemberInfo)
        ensures
            r@ == self@,
    {
        MemberInfo {
            member_id: self.member_id,
            version: self.version,
            preferred_nickname: copy_string(&self.preferred_nickname),
        }
    }
}

impl AuthorizedMemberInfo {
    /// Authorize a profile record with the member's own signing key.
    pub fn new_with_member_key(member_info: MemberInfo, signing_key: &[u8]) -> (r:
        AuthorizedMemberInfo)
        requires
            signing_key@.len() == 32,
        ensures
            r@.member_info == member_info@,
            r@.signature == sig_of(signing_key@, info_msg(member_info@)),
            r@.signature.len() == 64,
            sig_valid(vk_of_sk(signing_key@), info_msg(member_info@), r@.signature),
    {
        let payload = info_signing_bytes(&member_info);
        let signature = sign_bytes(signing_key, payload.as_slice());
        AuthorizedMemberInfo { member_info, signature }
    }

    /// Author a nickname update for one's own profile: an empty nickname
    /// or a signing key that is not the profile owner's is rejected before
    /// any delta is produced; otherwise the version is bumped and the new
    /// record self-signed.
    pub fn updated_nickname(
        current: &AuthorizedMemberInfo,
        new_nickname: String,
        self_sk: &[u8],
    ) -> (r: Option<AuthorizedMemberInfo>)
        requires
            self_sk@.len() == 32,
            current@.member_info.version < u32::MAX,
        ensures
            ({
                let id_of_key = crate::member::member_id_of(crate::crypto::vk_of_sk(self_sk@));
                if new_nickname@.len() == 0 || id_of_key != current@.member_info.member_id {
                    r is None
                } else {
                    r matches Some(upd) && upd@.member_info.member_id
                        == current@.member_info.member_id && upd@.member_info.version
                        == current@.member_info.version + 1 && upd@.member_info.preferred_nickname
                        == new_nickname@ && sig_valid(
                        crate::crypto::vk_of_sk(self_sk@),
                        info_msg(upd@.member_info),
                        upd@.signature,
                    )
                }
            }),
    {
        if new_nickname.as_str().unicode_len() == 0 {
            return None;
        }
        let own_vk = crate::crypto::derive_verifying_key(self_sk);
        let own_id = MemberId::new(own_vk.as_slice());
        if own_id != current.member_info.member_id {
            return None;
        }
        let info = MemberInfo {
            member_id: current.member_info.member_id,
            version: current.member_info.version + 1,
            preferred_nickname: new_nickname,
        };
        Some(AuthorizedMemberInfo::new_with_member_key(info, self_sk))
    }

    /// Check this record's signature against an alleged key of its member.
    pub fn verify_signature(&self, member_vk: &[u8]) -> (r: Result<(), RoomError>)
        ensures
            r is Ok <==> info_sig_ok(self@, member_vk@),
            r matches Err(e) ==> e == RoomError::SignatureInvalid,
    {
        if member_vk.len() != 32 || self.signature.len() != 64 {
            return Err(RoomError::SignatureInvalid);
        }
        let payload = info_signing_bytes(&self.member_info);
        if verify_sig_bytes(member_vk, payload.as_slice(), self.signature.as_slice()) {
            Ok(())
        } else {
            Err(RoomError::SignatureInvalid)
        }
    }

    /// A field-for-field copy.
    pub fn duplicate(&self) -> (r: AuthorizedMemberInfo)
        ensures
            r@ == self@,
    {
        AuthorizedMemberInfo {
            member_info: self.member_info.duplicate(),
            signature: copy_bytes(&self.signature),
        }
    }
}

// ------------------------------------------------------------------
// Verification
// ------------------------------------------------------------------

/// The check `verify` runs for one profile record: its member must be the
/// owner or present in the registry, and the signature must be the
/// member's own.
pub open spec fn info_check(
    members_s: Seq<AuthorizedMemberV>,
    owner_vk: Seq<u8>,
    i: AuthorizedMemberInfoV,
) -> Option<RoomError> {
    if i.member_info.member_id == member_id_of(owner_vk) {
        if info_sig_ok(i, owner_vk) {
            None
        } else {
            Some(RoomError::SignatureInvalid)
        }
    } else {
        let j = idx_first(members_s, i.member_info.member_id);
        if j < 0 {
            Some(RoomError::AuthorNotMember)
        } else if !info_sig_ok(i, members_s[j].member.member_vk) {
            Some(RoomError::SignatureInvalid)
        } else {
            None
        }
    }
}

/// The whole store passes verification against a member registry.
pub open spec fn infos_verified(
    members_s: Seq<AuthorizedMemberV>,
    owner_vk: Seq<u8>,
    s: Seq<AuthorizedMemberInfoV>,
) -> bool {
    forall|k: int| 0 <= k < s.len() ==> #[trigger] info_check(members_s, owner_vk, s[k]) is None
}

impl Default for MemberInfoV1 {
    /// An empty store.
    fn default() -> (r: MemberInfoV1)
        ensures
            r@ =~= Seq::<AuthorizedMemberInfoV>::empty(),
    {
        MemberInfoV1::new()
    }
}

impl MemberInfoV1 {
    /// A record-for-record copy.
    pub fn duplicate(&self) -> (r: MemberInfoV1)
        ensures
            r@ == self@,
    {
        let ghost s = self@;
        let n = self.member_info.len();
        let mut out: Vec<AuthorizedMemberInfo> = Vec::new();
        let mut i: usize = 0;
        while i < n
            invariant
                0 <= i <= n,
                n == self.member_info@.len(),
                s == self@,
                out@.map_values(|x: AuthorizedMemberInfo| x@) =~= s.subrange(0, i as int),
            decreases n - i,
        {
            let ghost pre_map = out@.map_values(|x: AuthorizedMemberInfo| x@);
            out.push(self.member_info[i].duplicate());
            proof {
                assert(out@.map_values(|x: AuthorizedMemberInfo| x@) =~= pre_map.push(s[i as int]));
                assert(s.subrange(0, i + 1 as int) =~= s.subrange(0, i as int).push(s[i as int]));
            }
            i = i + 1;
        }
        let r = MemberInfoV1 { member_info: out };
        proof {
            assert(s.subrange(0, n as int) =~= s);
            assert(r@ =~= s);
        }
        r
    }

    /// An empty store.
    pub fn new() -> (r: MemberInfoV1)
        ensures
            r@ =~= Seq::<AuthorizedMemberInfoV>::empty(),
    {
        let r = MemberInfoV1 { member_info: Vec::new() };
        proof {
            assert(r.member_info@.map_values(|i: AuthorizedMemberInfo| i@) =~= Seq::<
                AuthorizedMemberInfoV,
            >::empty());
        }
        r
    }

    /// Verify every profile record: each must belong to the owner or a
    /// current member and carry that member's own signature.
    pub fn verify(&self, members: &Members, owner_vk: &[u8]) -> (r: Result<(), RoomError>)
        ensures
            r is Ok <==> infos_verified(members@, owner_vk@, self@),
            r matches Err(e) ==> exists|k: int|
                0 <= k < self@.len() && #[trigger] info_check(members@, owner_vk@, self@[k])
                    == Some(e),
    {
        let ghost ms = members@;
        let ghost s = self@;
        let owner_id = MemberId::new(owner_vk);
        let n = self.member_info.len();
        let mut i: usize = 0;
        while i < n
            invariant
                0 <= i <= n,
                n == self.member_info@.len(),
                s == self@,
                ms == members@,
                owner_id == member_id_of(owner_vk@),
                forall|k: int| 0 <= k < i ==> #[trigger] info_check(ms, owner_vk@, s[k]) is None,
            decreases n - i,
        {
            let rec = &self.member_info[i];
            let check: Option<RoomError> = if rec.member_info.member_id == owner_id {
                match rec.verify_signature(owner_vk) {
                    Ok(()) => None,
                    Err(e) => Some(e),
                }
            } else {
                match crate::member::find_member_index(
                    &members.members,
                    rec.member_info.member_id,
                ) {
                    None => Some(RoomError::AuthorNotMember),
                    Some(j) => {
                        proof {
                            lemma_idx_first(ms, rec.member_info@.member_id);
                        }
                        match rec.verify_signature(members.members[j].member.member_vk.as_slice()) {
                            Ok(()) => None,
                            Err(e) => Some(e),
                        }
                    },
                }
            };
            match check {
                None => {
                    assert(info_check(ms, owner_vk@, s[i as int]) is None);
                },
                Some(e) => {
                    assert(info_check(ms, owner_vk@, s[i as int]) == Some(e));
                    return Err(e);
                },
            }
            i = i + 1;
        }
        Ok(())
    }

    /// Summary: each member's current profile version, in store order.
    pub fn summarize(&self) -> (r: Vec<(MemberId, u32)>)
        ensures
            r@ == self@.map_values(
                |i: AuthorizedMemberInfoV| (i.member_info.member_id, i.member_info.version),
            ),
    {
        let ghost s = self@;
        let n = self.member_info.len();
        let mut out: Vec<(MemberId, u32)> = Vec::new();
        let mut i: usize = 0;
        while i < n
            invariant
                0 <= i <= n,
                n == self.member_info@.len(),
                s == self@,
                out@.len() == i,
                forall|k: int|
                    0 <= k < i ==> out@[k] == (s[k].member_info.member_id, s[k].member_info.version),
            decreases n - i,
        {
            let rec = &self.member_info[i];
            out.push((rec.member_info.member_id, rec.member_info.version));
            i = i + 1;
        }
        assert(out@ =~= s.map_values(
            |i: AuthorizedMemberInfoV| (i.member_info.member_id, i.member_info.version),
        ));
        out
    }
}

/// Version recorded for a member in an old summary (first occurrence), if
/// any.
pub open spec fn summary_version_of(old: Seq<(MemberId, u32)>, id: MemberId) -> Option<u32>
    decreases old.len(),
{
    if old.len() == 0 {
        None
    } else if old[0].0 == id {
        Some(old[0].1)
    } else {
        summary_version_of(old.drop_first(), id)
    }
}

/// A record is news for a summary when the summary has no version for its
/// member, or only an older one.
pub open spec fn info_is_news(old: Seq<(MemberId, u32)>, i: AuthorizedMemberInfoV) -> bool {
    match summary_version_of(old, i.member_info.member_id) {
        None => true,
        Some(v) => i.member_info.version > v,
    }
}

/// Look up a member's version in a summary.
fn summary_version_exec(old: &Vec<(MemberId, u32)>, id: MemberId) -> (r: Option<u32>)
    ensures
        r == summary_version_of(old@, id),
    decreases old@.len(),
{
    let n = old.len();
    proof {
        assert(old@.subrange(0, n as int) =~= old@);
    }
    let mut i: usize = 0;
    while i < n
        invariant
            0 <= i <= n,
            n == old@.len(),
            summary_version_of(old@, id) == summary_version_of(old@.subrange(i as int, n as int), id),
        decreases n - i,
    {
        let ghost rest = old@.subrange(i as int, n as int);
        if old[i].0 == id {
            proof {
                assert(rest[0] == old@[i as int]);
            }
            return Some(old[i].1);
        }
        proof {
            assert(rest.drop_first() =~= old@.subrange(i + 1 as int, n as int));
            assert(rest[0] == old@[i as int]);
        }
        i = i + 1;
    }
    proof {
        assert(old@.subrange(n as int, n as int) =~= Seq::<(MemberId, u32)>::empty());
    }
    None
}

impl MemberInfoV1 {
    /// Records that are news relative to an old summary; `None` when there
    /// are none.
    pub fn delta(&self, old_state_summary: &Vec<(MemberId, u32)>) -> (r: Option<
        Vec<AuthorizedMemberInfo>,
    >)
        ensures
            r matches Some(v) ==> v@.map_values(|i: AuthorizedMemberInfo| i@) == self@.filter(
                |i: AuthorizedMemberInfoV| info_is_news(old_state_summary@, i),
            ) && v@.len() > 0,
            r is None ==> self@.filter(
                |i: AuthorizedMemberInfoV| info_is_news(old_state_summary@, i),
            ) =~= Seq::<AuthorizedMemberInfoV>::empty(),
    {
        let ghost s = self@;
        let ghost old = old_state_summary@;
        let n = self.member_info.len();
        let mut picked: Vec<AuthorizedMemberInfo> = Vec::new();
        let mut i: usize = 0;
        while i < n
            invariant
                0 <= i <= n,
                n == self.member_info@.len(),
                s == self@,
                old == old_state_summary@,
                picked@.map_values(|i: AuthorizedMemberInfo| i@) == s.subrange(0, i as int).filter(
                    |i: AuthorizedMemberInfoV| info_is_news(old, i),
                ),
            decreases n - i,
        {
            let ghost pre = s.subrange(0, i as int);
            let ghost pre_map = picked@.map_values(|i: AuthorizedMemberInfo| i@);
            let rec = &self.member_info[i];
            let is_news = match summary_version_exec(old_state_summary, rec.member_info.member_id) {
                None => true,
                Some(v) => rec.member_info.version > v,
            };
            if is_news {
                picked.push(rec.duplicate());
            }
            proof {
                assert(s.subrange(0, i + 1 as int) =~= pre.push(s[i as int]));
                lemma_filter_push(pre, s[i as int], |i: AuthorizedMemberInfoV| info_is_news(old, i));
                assert(is_news == info_is_news(old, s[i as int]));
                if is_news {
                    assert(picked@.map_values(|i: AuthorizedMemberInfo| i@) =~= pre_map.push(
                        s[i as int],
                    ));
                }
            }
            i = i + 1;
        }
        proof {
            assert(s.subrange(0, n as int) =~= s);
        }
        if picked.len() == 0 {
            None
        } else {
            Some(picked)
        }
    }
}

// ------------------------------------------------------------------
// Applying a delta
// ------------------------------------------------------------------

/// First index carrying a member's profile, or -1.
pub open spec fn info_idx_first(s: Seq<AuthorizedMemberInfoV>, id: MemberId) -> int
    decreases s.len(),
{
    if s.len() == 0 {
        -1
    } else if s[0].member_info.member_id == id {
        0
    } else {
        let rest = info_idx_first(s.drop_first(), id);
        if rest < 0 {
            -1
        } else {
            rest + 1
        }
    }
}

/// `info_idx_first` returns -1 with no occurrence, or the least index of
/// one.
pub proof fn lemma_info_idx_first(s: Seq<AuthorizedMemberInfoV>, id: MemberId)
    ensures
        -1 <= info_idx_first(s, id) < s.len(),
        info_idx_first(s, id) >= 0 ==> s[info_idx_first(s, id)].member_info.member_id == id,
        forall|k: int| 0 <= k < info_idx_first(s, id) ==> s[k].member_info.member_id != id,
        info_idx_first(s, id) == -1 ==> forall|k: int|
            0 <= k < s.len() ==> s[k].member_info.member_id != id,
    decreases s.len(),
{
    if s.len() == 0 {
    } else if s[0].member_info.member_id == id {
    } else {
        lemma_info_idx_first(s.drop_first(), id);
        assert(forall|k: int| 1 <= k < s.len() ==> s[k] == s.drop_first()[k - 1]);
    }
}

/// Merge one incoming record: insert it if its member is unknown, replace
/// the member's record if strictly newer, otherwise leave the store alone.
pub open spec fn upsert_info(s: Seq<AuthorizedMemberInfoV>, d: AuthorizedMemberInfoV) -> Seq<
    AuthorizedMemberInfoV,
> {
    let j = info_idx_first(s, d.member_info.member_id);
    if j < 0 {
        s.push(d)
    } else if d.member_info.version > s[j].member_info.version {
        s.update(j, d)
    } else {
        s
    }
}

/// Merge a batch of incoming records, in order.
pub open spec fn apply_infos(
    s: Seq<AuthorizedMemberInfoV>,
    ds: Seq<AuthorizedMemberInfoV>,
) -> Seq<AuthorizedMemberInfoV>
    decreases ds.len(),
{
    if ds.len() == 0 {
        s
    } else {
        upsert_info(apply_infos(s, ds.drop_last()), ds.last())
    }
}

/// Records whose member is still the owner or present in the registry.
pub open spec fn prune_infos(
    s: Seq<AuthorizedMemberInfoV>,
    members_s: Seq<AuthorizedMemberV>,
    owner_id: MemberId,
) -> Seq<AuthorizedMemberInfoV> {
    s.filter(
        |i: AuthorizedMemberInfoV| i.member_info.member_id == owner_id || has_member_id(
            members_s,
            i.member_info.member_id,
        ),
    )
}

/// The profile version the store holds for a member, if any.
pub open spec fn stored_version(s: Seq<AuthorizedMemberInfoV>, id: MemberId) -> Option<u32> {
    let j = info_idx_first(s, id);
    if j >= 0 {
        Some(s[j].member_info.version)
    } else {
        None
    }
}

/// Pushing a record leaves every already-present member's first record
/// where it was.
proof fn lemma_info_idx_push(s: Seq<AuthorizedMemberInfoV>, x: AuthorizedMemberInfoV, id: MemberId)
    ensures
        info_idx_first(s, id) >= 0 ==> info_idx_first(s.push(x), id) == info_idx_first(s, id),
    decreases s.len(),
{
    if s.len() == 0 {
    } else if s[0].member_info.member_id == id {
        assert(s.push(x)[0] == s[0]);
    } else {
        lemma_info_idx_push(s.drop_first(), x, id);
        assert(s.push(x).drop_first() =~= s.drop_first().push(x));
        assert(s.push(x)[0] == s[0]);
    }
}

/// Replacing a record with one of the same member leaves every member's
/// first-record index unchanged.
proof fn lemma_info_idx_update(
    s: Seq<AuthorizedMemberInfoV>,
    j: int,
    d: AuthorizedMemberInfoV,
    id: MemberId,
)
    requires
        0 <= j < s.len(),
        s[j].member_info.member_id == d.member_info.member_id,
    ensures
        info_idx_first(s.update(j, d), id) == info_idx_first(s, id),
    decreases s.len(),
{
    let s2 = s.update(j, d);
    if j == 0 {
        assert(s2[0].member_info.member_id == s[0].member_info.member_id);
        if s[0].member_info.member_id == id {
        } else {
            assert(s2.drop_first() =~= s.drop_first());
        }
    } else {
        assert(s2[0] == s[0]);
        if s[0].member_info.member_id == id {
        } else {
            assert(s2.drop_first() =~= s.drop_first().update(j - 1, d));
            lemma_info_idx_update(s.drop_first(), j - 1, d, id);
        }
    }
}

/// One merged record never lowers any member's stored version.
proof fn lemma_upsert_monotonic(
    s: Seq<AuthorizedMemberInfoV>,
    d: AuthorizedMemberInfoV,
    id: MemberId,
)
    ensures
        stored_version(s, id) matches Some(v) ==> (stored_version(upsert_info(s, d), id)
            matches Some(w) && w >= v),
{
    lemma_info_idx_first(s, d.member_info.member_id);
    lemma_info_idx_first(s, id);
    let j = info_idx_first(s, d.member_info.member_id);
    if stored_version(s, id) is Some {
        if j < 0 {
            lemma_info_idx_push(s, d, id);
            assert(s.push(d)[info_idx_first(s, id)] == s[info_idx_first(s, id)]);
        } else if d.member_info.version > s[j].member_info.version {
            lemma_info_idx_update(s, j, d, id);
            let i = info_idx_first(s, id);
            if i == j {
                assert(s[j].member_info.member_id == id);
                assert(s.update(j, d)[i] == d);
            } else {
                assert(s.update(j, d)[i] == s[i]);
            }
        }
    }
}

/// LAW (version monotonicity): merging a batch of profile records never
/// lowers any member's stored version.
pub proof fn lemma_apply_infos_monotonic(
    s: Seq<AuthorizedMemberInfoV>,
    ds: Seq<AuthorizedMemberInfoV>,
    id: MemberId,
)
    ensures
        stored_version(s, id) matches Some(v) ==> (stored_version(apply_infos(s, ds), id)
            matches Some(w) && w >= v),
    decreases ds.len(),
{
    if ds.len() > 0 {
        lemma_apply_infos_monotonic(s, ds.drop_last(), id);
        lemma_upsert_monotonic(apply_infos(s, ds.drop_last()), ds.last(), id);
    }
}

/// Pruning keeps the stored version of every member who is still the
/// owner or present in the registry.
pub proof fn lemma_prune_preserves_versions(
    s: Seq<AuthorizedMemberInfoV>,
    members_s: Seq<AuthorizedMemberV>,
    owner_id: MemberId,
    id: MemberId,
)
    requires
        id == owner_id || has_member_id(members_s, id),
    ensures
        stored_version(prune_infos(s, members_s, owner_id), id) == stored_version(s, id),
    decreases s.len(),
{
    let pred = |i: AuthorizedMemberInfoV| i.member_info.member_id == owner_id || has_member_id(
        members_s,
        i.member_info.member_id,
    );
    reveal(Seq::filter);
    if s.len() == 0 {
        assert(s.filter(pred) =~= s);
    } else {
        let head = s.subrange(0, 1);
        let rest = s.drop_first();
        let fs = s.filter(pred);
        let frest = rest.filter(pred);
        assert(s =~= head + rest);
        assert(head =~= Seq::<AuthorizedMemberInfoV>::empty().push(s[0]));
        lemma_filter_push(Seq::<AuthorizedMemberInfoV>::empty(), s[0], pred);
        lemma_filter_concat(head, rest, pred);
        lemma_prune_preserves_versions(rest, members_s, owner_id, id);
        lemma_info_idx_first(rest, id);
        lemma_info_idx_first(frest, id);
        if pred(s[0]) {
            assert(head.filter(pred) =~= head);
            assert(fs =~= head + frest);
            assert(fs[0] == s[0]);
            assert(fs.drop_first() =~= frest);
            if s[0].member_info.member_id == id {
                assert(info_idx_first(s, id) == 0);
                assert(info_idx_first(fs, id) == 0);
            } else {
                // both lookups step over the head into the rest
                let j = info_idx_first(rest, id);
                assert(info_idx_first(s, id) == if j < 0 {
                    -1
                } else {
                    j + 1
                });
                if j >= 0 {
                    assert(s[j + 1] == rest[j]);
                }
                let jf = info_idx_first(frest, id);
                assert(info_idx_first(fs, id) == if jf < 0 {
                    -1
                } else {
                    jf + 1
                });
                if jf >= 0 {
                    assert(fs[jf + 1] == frest[jf]);
                }
            }
        } else {
            // the head's member fails the filter, so it cannot be `id`,
            // whose member is still present
            assert(s[0].member_info.member_id != id);
            assert(head.filter(pred) =~= Seq::<AuthorizedMemberInfoV>::empty());
            assert(fs =~= frest);
            let j = info_idx_first(rest, id);
            assert(info_idx_first(s, id) == if j < 0 {
                -1
            } else {
                j + 1
            });
            if j >= 0 {
                assert(s[j + 1] == rest[j]);
            }
        }
    }
}

/// LAW (version monotonicity across merges): a member who stays the owner
/// or a registry member never sees their stored profile version decrease
/// when a batch of records is merged and the store pruned — exactly the
/// shape `apply_delta` leaves the store in.
pub proof fn lemma_info_merge_monotonic(
    s: Seq<AuthorizedMemberInfoV>,
    ds: Seq<AuthorizedMemberInfoV>,
    members_s: Seq<AuthorizedMemberV>,
    owner_id: MemberId,
    id: MemberId,
)
    requires
        id == owner_id || has_member_id(members_s, id),
    ensures
        stored_version(s, id) matches Some(v) ==> (stored_version(
            prune_infos(apply_infos(s, ds), members_s, owner_id),
            id,
        ) matches Some(w) && w >= v),
{
    lemma_apply_infos_monotonic(s, ds, id);
    lemma_prune_preserves_versions(apply_infos(s, ds), members_s, owner_id, id);
}

/// The records a delta carries, or nothing.
pub open spec fn info_delta_view(d: Option<Vec<AuthorizedMemberInfo>>) -> Seq<
    AuthorizedMemberInfoV,
> {
    match d {
        Some(v) => v@.map_values(|i: AuthorizedMemberInfo| i@),
        None => Seq::empty(),
    }
}

impl MemberInfoV1 {
    /// Merge incoming profile records: take each strictly newer record,
    /// insert records for new members, then drop records whose member has
    /// left the room.  A member's recorded version never decreases.
    pub fn apply_delta(
        &mut self,
        members: &Members,
        owner_id: MemberId,
        delta: &Option<Vec<AuthorizedMemberInfo>>,
    ) -> (r: Result<(), RoomError>)
        ensures
            r is Ok,
            final(self)@ == prune_infos(
                apply_infos(old(self)@, info_delta_view(*delta)),
                members@,
                owner_id,
            ),
    {
        let ghost s0 = self@;
        let ghost dv = info_delta_view(*delta);
        let ghost ms = members@;
        match delta {
            None => {
                proof {
                    assert(apply_infos(s0, dv) == s0);
                }
            },
            Some(dm) => {
                let dn = dm.len();
                let mut j: usize = 0;
                while j < dn
                    invariant
                        0 <= j <= dn,
                        dn == dm@.len(),
                        dv == dm@.map_values(|i: AuthorizedMemberInfo| i@),
                        self@ == apply_infos(s0, dv.subrange(0, j as int)),
                    decreases dn - j,
                {
                    let ghost cur = self@;
                    let rec = &dm[j];
                    proof {
                        lemma_info_idx_first(cur, rec.member_info@.member_id);
                    }
                    match self.find_info_index(rec.member_info.member_id) {
                        None => {
                            let ghost pre_map = self@;
                            self.member_info.push(rec.duplicate());
                            proof {
                                assert(self@ =~= pre_map.push(dv[j as int]));
                            }
                        },
                        Some(k) => {
                            if rec.member_info.version > self.member_info[k].member_info.version {
                                let ghost pre_map = self@;
                                self.member_info.set(k, rec.duplicate());
                                proof {
                                    assert(self@ =~= pre_map.update(k as int, dv[j as int]));
                                }
                            }
                        },
                    }
                    proof {
                        assert(dv[j as int] == dm@[j as int]@);
                        assert(self@ == upsert_info(cur, dv[j as int]));
                        assert(dv.subrange(0, j + 1 as int).drop_last() =~= dv.subrange(
                            0,
                            j as int,
                        ));
                        assert(dv.subrange(0, j + 1 as int).last() == dv[j as int]);
                    }
                    j = j + 1;
                }
                proof {
                    assert(dv.subrange(0, dn as int) =~= dv);
                }
            },
        }
        let ghost merged = self@;
        // prune records whose member has left
        let n = self.member_info.len();
        let mut out: Vec<AuthorizedMemberInfo> = Vec::new();
        let mut i: usize = 0;
        while i < n
            invariant
                0 <= i <= n,
                n == self.member_info@.len(),
                merged == self@,
                ms == members@,
                out@.map_values(|x: AuthorizedMemberInfo| x@) == merged.subrange(
                    0,
                    i as int,
                ).filter(
                    |x: AuthorizedMemberInfoV| x.member_info.member_id == owner_id
                        || has_member_id(ms, x.member_info.member_id),
                ),
            decreases n - i,
        {
            let ghost pre = merged.subrange(0, i as int);
            let ghost pre_map = out@.map_values(|x: AuthorizedMemberInfo| x@);
            let rec = &self.member_info[i];
            let keep = rec.member_info.member_id == owner_id || crate::member::find_member_index(
                &members.members,
                rec.member_info.member_id,
            ).is_some();
            proof {
                lemma_idx_first(ms, rec.member_info@.member_id);
            }
            if keep {
                out.push(rec.duplicate());
            }
            proof {
                assert(merged.subrange(0, i + 1 as int) =~= pre.push(merged[i as int]));
                lemma_filter_push(
                    pre,
                    merged[i as int],
                    |x: AuthorizedMemberInfoV| x.member_info.member_id == owner_id
                        || has_member_id(ms, x.member_info.member_id),
                );
                assert(keep == (merged[i as int].member_info.member_id == owner_id
                    || has_member_id(ms, merged[i as int].member_info.member_id)));
                if keep {
                    assert(out@.map_values(|x: AuthorizedMemberInfo| x@) =~= pre_map.push(
                        merged[i as int],
                    ));
                }
            }
            i = i + 1;
        }
        proof {
            assert(merged.subrange(0, n as int) =~= merged);
        }
        self.member_info = out;
        Ok(())
    }

    /// Find the first record of a member.
    fn find_info_index(&self, id: MemberId) -> (r: Option<usize>)
        ensures
            r matches Some(i) ==> info_idx_first(self@, id) == i as int,
            r is None ==> info_idx_first(self@, id) == -1,
    {
        let ghost s = self@;
        proof {
            lemma_info_idx_first(s, id);
        }
        let n = self.member_info.len();
        let mut i: usize = 0;
        while i < n
            invariant
                0 <= i <= n,
                n == self.member_info@.len(),
                s == self@,
                -1 <= info_idx_first(s, id) < s.len(),
                info_idx_first(s, id) >= 0 ==> s[info_idx_first(s, id)].member_info.member_id
                    == id,
                forall|k: int| 0 <= k < info_idx_first(s, id) ==> s[k].member_info.member_id != id,
                info_idx_first(s, id) == -1 ==> forall|k: int|
                    0 <= k < s.len() ==> s[k].member_info.member_id != id,
                forall|k: int| 0 <= k < i ==> s[k].member_info.member_id != id,
            decreases n - i,
        {
            if self.member_info[i].member_info.member_id == id {
                proof {
                    assert(s[i as int].member_info.member_id == id);
                    if info_idx_first(s, id) < i {
                        if info_idx_first(s, id) >= 0 {
                            assert(s[info_idx_first(s, id)].member_info.member_id != id);
                        }
                    }
                    if info_idx_first(s, id) > i {
                        assert(s[i as int].member_info.member_id != id);
                    }
                }
                return Some(i);
            }
            i = i + 1;
        }
        proof {
            if info_idx_first(s, id) >= 0 {
                assert(s[info_idx_first(s, id)].member_info.member_id != id);
            }
        }
        None
    }
}

} // verus!
