//! Pending room invitations: locally held invitations whose room state has
//! not yet been fetched and merged.
//!
//! A pending invite is keyed by the room owner's verifying key.  When the
//! room's state first arrives, the invite is resolved exactly once: its
//! status moves from `Retrieving` to `Retrieved`, and later fetches for the
//! same key are ordinary updates, not invite resolutions.

use vstd::prelude::*;

use crate::crypto::{derive_verifying_key, sig_of, vk_of_sk};
use crate::member::{
    bytes_eq, copy_bytes, copy_string, member_id_of, member_msg, AuthorizedMember,
    AuthorizedMemberV, Member, MemberId,
};

verus! {

/// A shareable invitation: the room's owner key, the invitee's newly
/// generated signing key, and a membership record signed by the inviter.
#[derive(Debug)]
pub struct Invitation {
    /// The room owner's verifying key; identifies the room.
    pub room: Vec<u8>,
    /// The invitee's fresh signing key (32 bytes).
    pub invitee_signing_key: Vec<u8>,
    /// The membership record the inviter authorized.
    pub invitee: AuthorizedMember,
}

/// Author an invitation: build the invitee's membership record under the
/// room owner, mark it as invited by the holder of `inviter_sk`, and sign
/// it with that key.  The invitee's key pair is generated by the caller.
pub fn create_invitation(
    room_owner_vk: &[u8],
    inviter_sk: &[u8],
    invitee_sk: Vec<u8>,
    nickname: String,
) -> (r: Invitation)
    requires
        inviter_sk@.len() == 32,
        invitee_sk@.len() == 32,
    ensures
        r.room@ == room_owner_vk@,
        r.invitee_signing_key@ == invitee_sk@,
        r.invitee@.member.owner_member_id == member_id_of(room_owner_vk@),
        r.invitee@.member.invited_by == member_id_of(vk_of_sk(inviter_sk@)),
        r.invitee@.member.member_vk == vk_of_sk(invitee_sk@),
        r.invitee@.member.nickname == nickname@,
        r.invitee@.signature == sig_of(inviter_sk@, member_msg(r.invitee@.member)),
{
    let owner_id = MemberId::new(room_owner_vk);
    let inviter_vk = derive_verifying_key(inviter_sk);
    let inviter_id = MemberId::new(inviter_vk.as_slice());
    let invitee_vk = derive_verifying_key(invitee_sk.as_slice());
    let member = Member {
        owner_member_id: owner_id,
        invited_by: inviter_id,
        member_vk: invitee_vk,
        nickname,
    };
    let invitee = AuthorizedMember::new(member, inviter_sk);
    Invitation { room: vstd::slice::slice_to_vec(room_owner_vk), invitee_signing_key: invitee_sk, invitee }
}

/// Status of a pending room join request.
#[derive(Clone, Debug, PartialEq)]
pub enum PendingRoomStatus {
    /// Currently retrieving room data.
    Retrieving,
    /// Successfully retrieved room data; the invite has been resolved.
    Retrieved,
    /// Retrieval failed.
    Error(String),
}

/// Mathematical value of a `PendingRoomStatus`.
pub ghost enum PendingRoomStatusV {
    Retrieving,
    Retrieved,
    Error { reason: Seq<char> },
}

impl View for PendingRoomStatus {
    type V = PendingRoomStatusV;

    open spec fn view(&self) -> PendingRoomStatusV {
        match self {
            PendingRoomStatus::Retrieving => PendingRoomStatusV::Retrieving,
            PendingRoomStatus::Retrieved => PendingRoomStatusV::Retrieved,
            PendingRoomStatus::Error(e) => PendingRoomStatusV::Error { reason: e@ },
        }
    }
}

/// One pending join: the authorized membership record from the invitation,
/// the invitee's own signing key, and the join's progress.
#[derive(Clone, Debug)]
pub struct PendingRoomJoin {
    /// The membership record the inviter signed for the invitee.
    pub authorized_member: AuthorizedMember,
    /// The invitee's newly generated signing key (32 bytes).
    pub invitee_signing_key: Vec<u8>,
    /// The nickname the invitee wants in this room.
    pub preferred_nickname: String,
    /// Progress of the join.
    pub status: PendingRoomStatus,
}

/// Mathematical value of a `PendingRoomJoin`.
pub ghost struct PendingRoomJoinV {
    pub authorized_member: AuthorizedMemberV,
    pub invitee_signing_key: Seq<u8>,
    pub preferred_nickname: Seq<char>,
    pub status: PendingRoomStatusV,
}

impl View for PendingRoomJoin {
    type V = PendingRoomJoinV;

    open spec fn view(&self) -> PendingRoomJoinV {
        PendingRoomJoinV {
            authorized_member: self.authorized_member@,
            invitee_signing_key: self.invitee_signing_key@,
            preferred_nickname: self.preferred_nickname@,
            status: self.status@,
        }
    }
}

/// One keyed entry of the tracker.
#[derive(Clone, Debug)]
pub struct PendingEntry {
    /// The room owner's verifying key this invitation is for.
    pub owner_vk: Vec<u8>,
    pub join: PendingRoomJoin,
}

/// Mathematical value of a `PendingEntry`.
pub ghost struct PendingEntryV {
    pub owner_vk: Seq<u8>,
    pub join: PendingRoomJoinV,
}

impl View for PendingEntry {
    type V = PendingEntryV;

    open spec fn view(&self) -> PendingEntryV {
        PendingEntryV { owner_vk: self.owner_vk@, join: self.join@ }
    }
}

/// Collection of pending room join requests, keyed by room owner key.
#[derive(Clone, Debug)]
pub struct PendingInvites {
    pub entries: Vec<PendingEntry>,
}

impl View for PendingInvites {
    type V = Seq<PendingEntryV>;

    open spec fn view(&self) -> Seq<PendingEntryV> {
        self.entries@.map_values(|e: PendingEntry| e@)
    }
}

/// First entry for an owner key, or -1.
pub open spec fn pending_idx_first(s: Seq<PendingEntryV>, owner_vk: Seq<u8>) -> int
    decreases s.len(),
{
    if s.len() == 0 {
        -1
    } else if s[0].owner_vk == owner_vk {
        0
    } else {
        let rest = pending_idx_first(s.drop_first(), owner_vk);
        if rest < 0 {
            -1
        } else {
            rest + 1
        }
    }
}

/// `pending_idx_first` returns -1 with no occurrence, or the least index of
/// one.
pub proof fn lemma_pending_idx_first(s: Seq<PendingEntryV>, owner_vk: Seq<u8>)
    ensures
        -1 <= pending_idx_first(s, owner_vk) < s.len(),
        pending_idx_first(s, owner_vk) >= 0 ==> s[pending_idx_first(s, owner_vk)].owner_vk
            == owner_vk,
        forall|k: int| 0 <= k < pending_idx_first(s, owner_vk) ==> s[k].owner_vk != owner_vk,
        pending_idx_first(s, owner_vk) == -1 ==> forall|k: int|
            0 <= k < s.len() ==> s[k].owner_vk != owner_vk,
    decreases s.len(),
{
    if s.len() == 0 {
    } else if s[0].owner_vk == owner_vk {
    } else {
        lemma_pending_idx_first(s.drop_first(), owner_vk);
        assert(forall|k: int| 1 <= k < s.len() ==> s[k] == s.drop_first()[k - 1]);
    }
}

impl Default for PendingInvites {
    /// An empty tracker.
    fn default() -> (r: PendingInvites)
        ensures
            r@ =~= Seq::<PendingEntryV>::empty(),
    {
        PendingInvites::new()
    }
}

impl PendingInvites {
    /// An empty tracker.
    pub fn new() -> (r: PendingInvites)
        ensures
            r@ =~= Seq::<PendingEntryV>::empty(),
    {
        let r = PendingInvites { entries: Vec::new() };
        proof {
            assert(r.entries@.map_values(|e: PendingEntry| e@) =~= Seq::<PendingEntryV>::empty());
        }
        r
    }

    /// Find the entry for an owner key.
    fn find_index(&self, owner_vk: &[u8]) -> (r: Option<usize>)
        ensures
            r matches Some(i) ==> pending_idx_first(self@, owner_vk@) == i as int,
            r is None ==> pending_idx_first(self@, owner_vk@) == -1,
    {
        let ghost s = self@;
        proof {
            lemma_pending_idx_first(s, owner_vk@);
        }
        let n = self.entries.len();
        let mut i: usize = 0;
        while i < n
            invariant
                0 <= i <= n,
                n == self.entries@.len(),
                s == self@,
                -1 <= pending_idx_first(s, owner_vk@) < s.len(),
                pending_idx_first(s, owner_vk@) >= 0 ==> s[pending_idx_first(s, owner_vk@)].owner_vk
                    == owner_vk@,
                forall|k: int|
                    0 <= k < pending_idx_first(s, owner_vk@) ==> s[k].owner_vk != owner_vk@,
                pending_idx_first(s, owner_vk@) == -1 ==> forall|k: int|
                    0 <= k < s.len() ==> s[k].owner_vk != owner_vk@,
                forall|k: int| 0 <= k < i ==> s[k].owner_vk != owner_vk@,
            decreases n - i,
        {
            if bytes_eq(self.entries[i].owner_vk.as_slice(), owner_vk) {
                proof {
                    assert(s[i as int].owner_vk == owner_vk@);
                    if pending_idx_first(s, owner_vk@) < i {
                        if pending_idx_first(s, owner_vk@) >= 0 {
                            assert(s[pending_idx_first(s, owner_vk@)].owner_vk != owner_vk@);
                        }
                    }
                    if pending_idx_first(s, owner_vk@) > i {
                        assert(s[i as int].owner_vk != owner_vk@);
                    }
                }
                return Some(i);
            }
            i = i + 1;
        }
        proof {
            if pending_idx_first(s, owner_vk@) >= 0 {
                assert(s[pending_idx_first(s, owner_vk@)].owner_vk != owner_vk@);
            }
        }
        None
    }

    /// Record a fresh invitation as retrieving, replacing any earlier entry
    /// for the same room.
    pub fn track(&mut self, owner_vk: Vec<u8>, join: PendingRoomJoin)
        ensures
            ({
                let j = pending_idx_first(old(self)@, owner_vk@);
                let e = PendingEntryV { owner_vk: owner_vk@, join: join@ };
                if j < 0 {
                    final(self)@ == old(self)@.push(e)
                } else {
                    final(self)@ == old(self)@.update(j, e)
                }
            }),
    {
        let ghost s = self@;
        let ghost ovk = owner_vk@;
        let ghost jv = join@;
        match self.find_index(owner_vk.as_slice()) {
            None => {
                let ghost pre = self@;
                self.entries.push(PendingEntry { owner_vk, join });
                proof {
                    assert(self@ =~= pre.push(PendingEntryV { owner_vk: ovk, join: jv }));
                }
            },
            Some(i) => {
                proof {
                    lemma_pending_idx_first(s, ovk);
                }
                let ghost pre = self@;
                self.entries.set(i, PendingEntry { owner_vk, join });
                proof {
                    assert(self@ =~= pre.update(
                        i as int,
                        PendingEntryV { owner_vk: ovk, join: jv },
                    ));
                }
            },
        }
    }

    /// Whether the tracker still awaits this room's state.
    pub fn is_retrieving(&self, owner_vk: &[u8]) -> (r: bool)
        ensures
            r == ({
                let j = pending_idx_first(self@, owner_vk@);
                j >= 0 && self@[j].join.status is Retrieving
            }),
    {
        match self.find_index(owner_vk) {
            None => false,
            Some(i) => {
                proof {
                    lemma_pending_idx_first(self@, owner_vk@);
                }
                match &self.entries[i].join.status {
                    PendingRoomStatus::Retrieving => true,
                    _ => false,
                }
            },
        }
    }

    /// Resolve a pending invitation: if this room's invite is still
    /// retrieving, mark it retrieved and hand back the join data exactly
    /// once; any later call for the same room returns `None`.
    pub fn resolve(&mut self, owner_vk: &[u8]) -> (r: Option<PendingRoomJoin>)
        ensures
            ({
                let j = pending_idx_first(old(self)@, owner_vk@);
                if j >= 0 && old(self)@[j].join.status is Retrieving {
                    &&& r matches Some(join) && join@ == old(self)@[j].join
                    &&& final(self)@ == old(self)@.update(
                        j,
                        PendingEntryV {
                            owner_vk: old(self)@[j].owner_vk,
                            join: PendingRoomJoinV {
                                status: PendingRoomStatusV::Retrieved,
                                ..old(self)@[j].join
                            },
                        },
                    )
                } else {
                    r is None && final(self)@ == old(self)@
                }
            }),
    {
        let ghost s = self@;
        match self.find_index(owner_vk) {
            None => None,
            Some(i) => {
                proof {
                    lemma_pending_idx_first(s, owner_vk@);
                }
                let retrieving = match &self.entries[i].join.status {
                    PendingRoomStatus::Retrieving => true,
                    _ => false,
                };
                if !retrieving {
                    return None;
                }
                let entry = &self.entries[i];
                let join_out = PendingRoomJoin {
                    authorized_member: entry.join.authorized_member.duplicate(),
                    invitee_signing_key: copy_bytes(&entry.join.invitee_signing_key),
                    preferred_nickname: copy_string(&entry.join.preferred_nickname),
                    status: PendingRoomStatus::Retrieving,
                };
                let updated = PendingEntry {
                    owner_vk: copy_bytes(&entry.owner_vk),
                    join: PendingRoomJoin {
                        authorized_member: entry.join.authorized_member.duplicate(),
                        invitee_signing_key: copy_bytes(&entry.join.invitee_signing_key),
                        preferred_nickname: copy_string(&entry.join.preferred_nickname),
                        status: PendingRoomStatus::Retrieved,
                    },
                };
                let ghost pre = self@;
                self.entries.set(i, updated);
                proof {
                    assert(self@ =~= pre.update(
                        i as int,
                        PendingEntryV {
                            owner_vk: pre[i as int].owner_vk,
                            join: PendingRoomJoinV {
                                status: PendingRoomStatusV::Retrieved,
                                ..pre[i as int].join
                            },
                        },
                    ));
                }
                Some(join_out)
            },
        }
    }
}

} // verus!
