//! Room state aggregator: composes configuration, member registry, member
//! info and the message log under one set of room parameters, and exposes a
//! single `verify` / `summarize` / `delta` / `apply_delta` / `merge`
//! surface.
//!
//! `apply_delta` merges field by field — a failure in one sub-state is
//! reported but does not stop the others — and then re-verifies the whole
//! aggregate; a result that fails verification is rolled back and reported
//! as `StateRejected`.  Sub-states are merged in dependency order
//! (configuration, members, member info, messages) so that every replica
//! applies the same limits and the same registry to the same batch.

use vstd::prelude::*;

use crate::configuration::{
    config_applied, config_delta_rejected, config_delta_view, config_sig_ok,
    AuthorizedConfiguration, AuthorizedConfigurationV,
};
use crate::errors::RoomError;
use crate::member::{
    am_id, delta_added, delta_applied, delta_removed, evict_spec, has_member_id, idx_first,
    lemma_evict_len, lemma_idx_first, member_id_of, members_verified, summary_of,
    AuthorizedMemberV, MemberId, Members, MembersDelta, MembersDeltaV,
};
use crate::seqs::{lemma_filter_all, lemma_filter_idempotent, lemma_filter_none};
use crate::member_info::{
    apply_infos, info_check, info_delta_view, info_is_news, infos_verified, prune_infos,
    summary_version_of, AuthorizedMemberInfo, AuthorizedMemberInfoV, MemberInfoV1,
};
use crate::message::{
    canon_log, lemma_canon_of_canonical, messages_verified, msg_check, msg_delta_view, msg_id_of,
    msg_keep, msgs_sorted, AuthorizedMessageV1, AuthorizedMessageVV, MessageId, MessagesV1,
};

verus! {

/// Immutable per-room constants: the owner's verifying key, which every
/// verification is rooted in.
#[derive(Clone, Debug, PartialEq)]
pub struct ChatRoomParametersV1 {
    /// The room owner's ed25519 verifying key (32 bytes).
    pub owner: Vec<u8>,
}

impl View for ChatRoomParametersV1 {
    type V = Seq<u8>;

    open spec fn view(&self) -> Seq<u8> {
        self.owner@
    }
}

impl ChatRoomParametersV1 {
    /// The owner's member id.
    pub fn owner_id(&self) -> (r: MemberId)
        ensures
            r == member_id_of(self.owner@),
    {
        MemberId::new(self.owner.as_slice())
    }
}

/// The aggregate room state.
#[derive(Clone, Debug, PartialEq)]
pub struct ChatRoomStateV1 {
    pub configuration: AuthorizedConfiguration,
    pub members: Members,
    pub member_info: MemberInfoV1,
    pub recent_messages: MessagesV1,
}

/// Mathematical value of a `ChatRoomStateV1`.
#[verifier::ext_equal]
pub ghost struct ChatRoomStateV {
    pub configuration: AuthorizedConfigurationV,
    pub members: Seq<AuthorizedMemberV>,
    pub member_info: Seq<AuthorizedMemberInfoV>,
    pub recent_messages: Seq<AuthorizedMessageVV>,
}

impl View for ChatRoomStateV1 {
    type V = ChatRoomStateV;

    open spec fn view(&self) -> ChatRoomStateV {
        ChatRoomStateV {
            configuration: self.configuration@,
            members: self.members@,
            member_info: self.member_info@,
            recent_messages: self.recent_messages@,
        }
    }
}

/// Summary of a whole room state.
#[derive(Clone, Debug, PartialEq)]
pub struct ChatRoomSummary {
    pub configuration_version: u32,
    pub member_ids: Vec<MemberId>,
    pub member_info_versions: Vec<(MemberId, u32)>,
    pub message_ids: Vec<MessageId>,
}

/// Mathematical value of a `ChatRoomSummary`.
pub ghost struct ChatRoomSummaryV {
    pub configuration_version: u32,
    pub member_ids: Seq<MemberId>,
    pub member_info_versions: Seq<(MemberId, u32)>,
    pub message_ids: Seq<MessageId>,
}

impl View for ChatRoomSummary {
    type V = ChatRoomSummaryV;

    open spec fn view(&self) -> ChatRoomSummaryV {
        ChatRoomSummaryV {
            configuration_version: self.configuration_version,
            member_ids: self.member_ids@,
            member_info_versions: self.member_info_versions@,
            message_ids: self.message_ids@,
        }
    }
}

/// Change between two room summaries, one optional delta per sub-state.
#[derive(Clone, Debug, PartialEq)]
pub struct ChatRoomStateV1Delta {
    pub configuration: Option<AuthorizedConfiguration>,
    pub members: Option<MembersDelta>,
    pub member_info: Option<Vec<AuthorizedMemberInfo>>,
    pub recent_messages: Option<Vec<AuthorizedMessageV1>>,
}

/// Mathematical value of a `ChatRoomStateV1Delta`.
pub ghost struct ChatRoomDeltaV {
    pub configuration: Option<AuthorizedConfigurationV>,
    pub members: Option<MembersDeltaV>,
    pub member_info: Seq<AuthorizedMemberInfoV>,
    pub recent_messages: Seq<AuthorizedMessageVV>,
}

impl View for ChatRoomStateV1Delta {
    type V = ChatRoomDeltaV;

    open spec fn view(&self) -> ChatRoomDeltaV {
        ChatRoomDeltaV {
            configuration: config_delta_view(self.configuration),
            members: match self.members {
                Some(d) => Some(d@),
                None => None,
            },
            member_info: info_delta_view(self.member_info),
            recent_messages: msg_delta_view(self.recent_messages),
        }
    }
}

// ------------------------------------------------------------------
// Aggregate verification
// ------------------------------------------------------------------

/// Every invariant of a room state: an owner-signed configuration, verified
/// invite chains without the owner, self-signed profile records of current
/// members, and author-signed messages of current members or the owner.
pub open spec fn room_verified(s: ChatRoomStateV, owner_vk: Seq<u8>) -> bool {
    &&& config_sig_ok(s.configuration, owner_vk)
    &&& members_verified(s.members, owner_vk)
    &&& infos_verified(s.members, owner_vk, s.member_info)
    &&& messages_verified(s.members, owner_vk, s.recent_messages)
}

// ------------------------------------------------------------------
// Aggregate summaries, deltas, and merging
// ------------------------------------------------------------------

/// Summary of a room state, at the specification level.
pub open spec fn room_summary(s: ChatRoomStateV) -> ChatRoomSummaryV {
    ChatRoomSummaryV {
        configuration_version: s.configuration.configuration.configuration_version,
        member_ids: summary_of(s.members),
        member_info_versions: s.member_info.map_values(
            |i: AuthorizedMemberInfoV| (i.member_info.member_id, i.member_info.version),
        ),
        message_ids: s.recent_messages.map_values(|m: AuthorizedMessageVV| msg_id_of(m)),
    }
}

/// Delta from an old summary to a newer state, at the specification level.
pub open spec fn room_delta_spec(other: ChatRoomStateV, old: ChatRoomSummaryV) -> ChatRoomDeltaV {
    let added = delta_added(other.members, old.member_ids);
    let removed = delta_removed(other.members, old.member_ids);
    ChatRoomDeltaV {
        configuration: if other.configuration.configuration.configuration_version
            > old.configuration_version {
            Some(other.configuration)
        } else {
            None
        },
        members: if added.len() == 0 && removed.len() == 0 {
            None
        } else {
            Some(MembersDeltaV { added, removed })
        },
        member_info: other.member_info.filter(
            |i: AuthorizedMemberInfoV| info_is_news(old.member_info_versions, i),
        ),
        recent_messages: other.recent_messages.filter(
            |m: AuthorizedMessageVV| !old.message_ids.contains(msg_id_of(m)),
        ),
    }
}

/// The room state after applying a delta, at the specification level:
/// configuration first, then members under the merged capacity, then
/// profile records and messages against the merged registry and limits.
pub open spec fn room_apply(s: ChatRoomStateV, owner_vk: Seq<u8>, d: ChatRoomDeltaV) -> ChatRoomStateV {
    let cfg = config_applied(s.configuration, owner_vk, d.configuration);
    let mem = match d.members {
        None => s.members,
        Some(dd) => evict_spec(
            delta_applied(s.members, dd.removed, dd.added),
            cfg.configuration.max_members as nat,
        ),
    };
    let owner_id = member_id_of(owner_vk);
    ChatRoomStateV {
        configuration: cfg,
        members: mem,
        member_info: prune_infos(apply_infos(s.member_info, d.member_info), mem, owner_id),
        recent_messages: canon_log(
            s.recent_messages + d.recent_messages,
            mem,
            owner_id,
            cfg.configuration.max_message_size as nat,
            cfg.configuration.max_recent_messages as nat,
        ),
    }
}

// ------------------------------------------------------------------
// Idempotence law
// ------------------------------------------------------------------

/// Profile records belong to pairwise distinct members.
pub open spec fn info_ids_distinct(s: Seq<AuthorizedMemberInfoV>) -> bool {
    forall|i: int, j: int|
        0 <= i < j < s.len() ==> (#[trigger] s[i]).member_info.member_id
            != (#[trigger] s[j]).member_info.member_id
}

/// A room state in the form every successful merge leaves it in: verified,
/// within its own capacity limits, message log sorted and size-filtered,
/// and one profile record per member.
pub open spec fn room_canonical(s: ChatRoomStateV, owner_vk: Seq<u8>) -> bool {
    &&& room_verified(s, owner_vk)
    &&& s.members.len() <= s.configuration.configuration.max_members
    &&& msgs_sorted(s.recent_messages)
    &&& s.recent_messages.len() <= s.configuration.configuration.max_recent_messages
    &&& forall|k: int|
        0 <= k < s.recent_messages.len() ==> vstd::utf8::encode_utf8(
            (#[trigger] s.recent_messages[k]).message.content,
        ).len() <= s.configuration.configuration.max_message_size
    &&& info_ids_distinct(s.member_info)
}

/// In a store with one record per member, the summary's version for a
/// record's member is that record's own version.
proof fn lemma_summary_version_self(s: Seq<AuthorizedMemberInfoV>, k: int)
    requires
        info_ids_distinct(s),
        0 <= k < s.len(),
    ensures
        summary_version_of(
            s.map_values(|i: AuthorizedMemberInfoV| (i.member_info.member_id, i.member_info.version)),
            s[k].member_info.member_id,
        ) == Some(s[k].member_info.version),
    decreases s.len(),
{
    let m = s.map_values(
        |i: AuthorizedMemberInfoV| (i.member_info.member_id, i.member_info.version),
    );
    if k == 0 {
        assert(m[0] == (s[0].member_info.member_id, s[0].member_info.version));
    } else {
        assert(m[0].0 != s[k].member_info.member_id);
        let t = s.drop_first();
        assert(info_ids_distinct(t)) by {
            assert(forall|i: int| 0 <= i < t.len() ==> t[i] == s[i + 1]);
        }
        lemma_summary_version_self(t, k - 1);
        assert(m.drop_first() =~= t.map_values(
            |i: AuthorizedMemberInfoV| (i.member_info.member_id, i.member_info.version),
        ));
        assert(t[k - 1] == s[k]);
    }
}

/// LAW (idempotence): applying to a canonical state the delta between that
/// state and its own summary reproduces the state unchanged.
pub proof fn lemma_room_idempotent(s: ChatRoomStateV, owner_vk: Seq<u8>)
    requires
        room_canonical(s, owner_vk),
    ensures
        room_apply(s, owner_vk, room_delta_spec(s, room_summary(s))) == s,
{
    let sum = room_summary(s);
    let d = room_delta_spec(s, sum);
    let owner_id = member_id_of(owner_vk);
    // configuration: a version is never newer than itself
    assert(d.configuration is None);
    // members: nothing added, nothing removed
    assert forall|k: int|
        0 <= k < s.members.len() implies !(!sum.member_ids.contains(
        am_id(#[trigger] s.members[k]),
    )) by {
        assert(sum.member_ids[k] == am_id(s.members[k]));
    }
    lemma_filter_none(
        s.members,
        |am: AuthorizedMemberV| !sum.member_ids.contains(am_id(am)),
    );
    assert forall|k: int|
        0 <= k < sum.member_ids.len() implies !(idx_first(
        s.members,
        #[trigger] sum.member_ids[k],
    ) == -1) by {
        assert(sum.member_ids[k] == am_id(s.members[k]));
        lemma_idx_first(s.members, sum.member_ids[k]);
        if idx_first(s.members, sum.member_ids[k]) == -1 {
            assert(am_id(s.members[k]) != sum.member_ids[k]);
        }
    }
    lemma_filter_none(sum.member_ids, |id: MemberId| idx_first(s.members, id) == -1);
    assert(delta_added(s.members, sum.member_ids).len() == 0);
    assert(delta_removed(s.members, sum.member_ids).len() == 0);
    assert(d.members is None);
    // member info: nothing is news, and pruning keeps every record
    assert forall|k: int|
        0 <= k < s.member_info.len() implies !info_is_news(
        sum.member_info_versions,
        #[trigger] s.member_info[k],
    ) by {
        lemma_summary_version_self(s.member_info, k);
    }
    lemma_filter_none(
        s.member_info,
        |i: AuthorizedMemberInfoV| info_is_news(sum.member_info_versions, i),
    );
    assert(d.member_info =~= Seq::<AuthorizedMemberInfoV>::empty());
    assert(apply_infos(s.member_info, d.member_info) == s.member_info);
    assert forall|k: int|
        0 <= k < s.member_info.len() implies ((#[trigger] s.member_info[k]).member_info.member_id
        == owner_id || has_member_id(s.members, s.member_info[k].member_info.member_id)) by {
        assert(info_check(s.members, owner_vk, s.member_info[k]) is None);
    }
    lemma_filter_all(
        s.member_info,
        |i: AuthorizedMemberInfoV| i.member_info.member_id == owner_id || has_member_id(
            s.members,
            i.member_info.member_id,
        ),
    );
    assert(prune_infos(apply_infos(s.member_info, d.member_info), s.members, owner_id)
        == s.member_info);
    // messages: nothing is news, and the log is already canonical
    assert forall|k: int|
        0 <= k < s.recent_messages.len() implies !(!sum.message_ids.contains(
        msg_id_of(#[trigger] s.recent_messages[k]),
    )) by {
        assert(sum.message_ids[k] == msg_id_of(s.recent_messages[k]));
    }
    lemma_filter_none(
        s.recent_messages,
        |m: AuthorizedMessageVV| !sum.message_ids.contains(msg_id_of(m)),
    );
    assert(d.recent_messages =~= Seq::<AuthorizedMessageVV>::empty());
    assert(s.recent_messages + d.recent_messages =~= s.recent_messages);
    assert forall|k: int|
        0 <= k < s.recent_messages.len() implies msg_keep(
        s.members,
        owner_id,
        s.configuration.configuration.max_message_size as nat,
        #[trigger] s.recent_messages[k],
    ) by {
        reveal(msg_check);
        assert(msg_check(s.members, owner_vk, s.recent_messages[k]) is None);
        lemma_idx_first(s.members, s.recent_messages[k].message.author);
    }
    lemma_canon_of_canonical(
        s.recent_messages,
        s.members,
        owner_id,
        s.configuration.configuration.max_message_size as nat,
        s.configuration.configuration.max_recent_messages as nat,
    );
    assert(canon_log(
        s.recent_messages + d.recent_messages,
        s.members,
        owner_id,
        s.configuration.configuration.max_message_size as nat,
        s.configuration.configuration.max_recent_messages as nat,
    ) == s.recent_messages);
    assert(room_apply(s, owner_vk, d) =~= s);
}

/// A message-only room delta.
pub open spec fn message_only_delta(d: Seq<AuthorizedMessageVV>) -> ChatRoomDeltaV {
    ChatRoomDeltaV {
        configuration: None,
        members: None,
        member_info: Seq::empty(),
        recent_messages: d,
    }
}

/// LAW (convergence): two replicas that start from the same room state and
/// receive the same two message batches in opposite orders end in the same
/// state — provided no two distinct messages in play collide on
/// `(timestamp, id)`.
pub proof fn lemma_room_message_convergence(
    s: ChatRoomStateV,
    owner_vk: Seq<u8>,
    d1: Seq<AuthorizedMessageVV>,
    d2: Seq<AuthorizedMessageVV>,
)
    requires
        crate::message::keys_determine(s.recent_messages + d1 + d2),
    ensures
        room_apply(room_apply(s, owner_vk, message_only_delta(d1)), owner_vk, message_only_delta(d2))
            == room_apply(
            room_apply(s, owner_vk, message_only_delta(d2)),
            owner_vk,
            message_only_delta(d1),
        ),
{
    let owner_id = member_id_of(owner_vk);
    let max_size = s.configuration.configuration.max_message_size as nat;
    let max_recent = s.configuration.configuration.max_recent_messages as nat;
    let prune_pred = |i: AuthorizedMemberInfoV| i.member_info.member_id == owner_id
        || has_member_id(s.members, i.member_info.member_id);
    // a message-only delta leaves configuration and members alone, and
    // pruning the profile store is idempotent
    assert(apply_infos(s.member_info, Seq::empty()) == s.member_info);
    let pruned = s.member_info.filter(prune_pred);
    assert(apply_infos(pruned, Seq::empty()) == pruned);
    lemma_filter_idempotent(s.member_info, prune_pred);
    // the logs converge by sequential merge absorption
    crate::message::lemma_sequential_merge_convergence(
        s.recent_messages,
        d1,
        d2,
        s.members,
        owner_id,
        max_size,
        max_recent,
    );
    let left = room_apply(
        room_apply(s, owner_vk, message_only_delta(d1)),
        owner_vk,
        message_only_delta(d2),
    );
    let right = room_apply(
        room_apply(s, owner_vk, message_only_delta(d2)),
        owner_vk,
        message_only_delta(d1),
    );
    assert(left.recent_messages == right.recent_messages);
    assert(left =~= right);
}

impl Default for ChatRoomStateV1 {
    /// An empty room state under a default configuration.
    fn default() -> (r: ChatRoomStateV1)
        ensures
            r@.members =~= Seq::<AuthorizedMemberV>::empty(),
            r@.member_info =~= Seq::<AuthorizedMemberInfoV>::empty(),
            r@.recent_messages =~= Seq::<AuthorizedMessageVV>::empty(),
    {
        ChatRoomStateV1::new()
    }
}

impl ChatRoomStateV1 {
    /// An empty room state under a default configuration.
    ///
    /// The default configuration carries no owner signature, so a fresh
    /// state does not verify until the owner has signed a configuration.
    pub fn new() -> (r: ChatRoomStateV1)
        ensures
            r@.members =~= Seq::<AuthorizedMemberV>::empty(),
            r@.member_info =~= Seq::<AuthorizedMemberInfoV>::empty(),
            r@.recent_messages =~= Seq::<AuthorizedMessageVV>::empty(),
    {
        ChatRoomStateV1 {
            configuration: AuthorizedConfiguration {
                configuration: Default::default(),
                signature: Vec::new(),
            },
            members: Members::new(),
            member_info: MemberInfoV1::new(),
            recent_messages: MessagesV1::new(),
        }
    }

    /// A field-for-field copy.
    pub fn duplicate(&self) -> (r: ChatRoomStateV1)
        ensures
            r@ == self@,
    {
        ChatRoomStateV1 {
            configuration: self.configuration.duplicate(),
            members: self.members.duplicate(),
            member_info: self.member_info.duplicate(),
            recent_messages: self.recent_messages.duplicate(),
        }
    }

    /// Verify the whole aggregate against the room parameters.
    pub fn verify(&self, parameters: &ChatRoomParametersV1) -> (r: Result<(), RoomError>)
        ensures
            r is Ok <==> room_verified(self@, parameters@),
            r is Err ==> !room_verified(self@, parameters@),
    {
        let owner_vk = parameters.owner.as_slice();
        match self.configuration.verify(owner_vk) {
            Err(e) => {
                return Err(e);
            },
            Ok(()) => {},
        }
        match self.members.verify(owner_vk) {
            Err(e) => {
                return Err(e);
            },
            Ok(()) => {},
        }
        match self.member_info.verify(&self.members, owner_vk) {
            Err(e) => {
                return Err(e);
            },
            Ok(()) => {},
        }
        match self.recent_messages.verify(&self.members, owner_vk) {
            Err(e) => {
                return Err(e);
            },
            Ok(()) => {},
        }
        Ok(())
    }

    /// Summarize all four sub-states.
    pub fn summarize(&self, _parameters: &ChatRoomParametersV1) -> (r: ChatRoomSummary)
        ensures
            r@ == room_summary(self@),
    {
        let r = ChatRoomSummary {
            configuration_version: self.configuration.summarize(),
            member_ids: self.members.summarize(),
            member_info_versions: self.member_info.summarize(),
            message_ids: self.recent_messages.summarize(),
        };
        r
    }

    /// Delta from an older summary to this state; each sub-state reports
    /// `None` when it has no news.
    pub fn delta(
        &self,
        _parameters: &ChatRoomParametersV1,
        old_state_summary: &ChatRoomSummary,
    ) -> (r: ChatRoomStateV1Delta)
        ensures
            r@.configuration == room_delta_spec(self@, old_state_summary@).configuration,
            r@.members == room_delta_spec(self@, old_state_summary@).members,
            r@.member_info == room_delta_spec(self@, old_state_summary@).member_info,
            r@.recent_messages == room_delta_spec(self@, old_state_summary@).recent_messages,
    {
        let configuration = self.configuration.delta(old_state_summary.configuration_version);
        let members_delta = self.members.delta(&old_state_summary.member_ids);
        let members = if members_delta.added.len() == 0 && members_delta.removed.len() == 0 {
            None
        } else {
            Some(members_delta)
        };
        let member_info = self.member_info.delta(&old_state_summary.member_info_versions);
        let recent_messages = self.recent_messages.delta(&old_state_summary.message_ids);
        let r = ChatRoomStateV1Delta { configuration, members, member_info, recent_messages };
        proof {
            let rd = room_delta_spec(self@, old_state_summary@);
            if r.member_info is None {
                assert(r@.member_info =~= rd.member_info);
            }
            if r.recent_messages is None {
                assert(r@.recent_messages =~= rd.recent_messages);
            }
        }
        r
    }

    /// Apply a delta field by field, then re-verify the aggregate.
    ///
    /// A rejected configuration is reported but does not stop the other
    /// sub-states.  If the merged aggregate fails verification it is rolled
    /// back entirely and the call reports `StateRejected`.
    pub fn apply_delta(
        &mut self,
        parameters: &ChatRoomParametersV1,
        delta: &ChatRoomStateV1Delta,
    ) -> (r: Result<(), RoomError>)
        ensures
            ({
                let merged = room_apply(old(self)@, parameters@, delta@);
                if room_verified(merged, parameters@) {
                    &&& final(self)@ == merged
                    &&& (r is Ok <==> !config_delta_rejected(
                        old(self)@.configuration,
                        parameters@,
                        delta@.configuration,
                    ))
                    &&& (r is Err ==> r == Result::<(), RoomError>::Err(
                        RoomError::SignatureInvalid,
                    ))
                } else {
                    &&& final(self)@ == old(self)@
                    &&& r == Result::<(), RoomError>::Err(RoomError::StateRejected)
                }
            }),
    {
        let ghost s0 = self@;
        let snapshot = self.duplicate();
        // 1. configuration
        let cfg_result = self.configuration.apply_delta(
            parameters.owner.as_slice(),
            &delta.configuration,
        );
        // 2. members, under the merged capacity
        match &delta.members {
            None => {},
            Some(d) => {
                let new_members = self.members.apply_delta(
                    d,
                    self.configuration.configuration.max_members,
                );
                self.members = new_members;
            },
        }
        // 3. member info against the merged registry
        let owner_id = parameters.owner_id();
        let info_result = self.member_info.apply_delta(&self.members, owner_id, &delta.member_info);
        // 4. messages against the merged registry and limits
        let msg_result = self.recent_messages.apply_delta(
            &self.members,
            owner_id,
            self.configuration.configuration.max_recent_messages,
            self.configuration.configuration.max_message_size,
            &delta.recent_messages,
        );
        proof {
            assert(self@ == room_apply(s0, parameters@, delta@));
        }
        // 5. post-merge verification gate
        match self.verify(parameters) {
            Ok(()) => {
                match cfg_result {
                    Ok(()) => Ok(()),
                    Err(e) => Err(e),
                }
            },
            Err(_) => {
                *self = snapshot;
                Err(RoomError::StateRejected)
            },
        }
    }

    /// Merge another replica's state into this one: compute the incoming
    /// state's delta against this state's summary and apply it.
    pub fn merge(
        &mut self,
        parameters: &ChatRoomParametersV1,
        other_state: &ChatRoomStateV1,
    ) -> (r: Result<(), RoomError>)
        ensures
            ({
                let d = room_delta_spec(other_state@, room_summary(old(self)@));
                let merged = room_apply(old(self)@, parameters@, d);
                if room_verified(merged, parameters@) {
                    &&& final(self)@ == merged
                    &&& (r is Ok <==> !config_delta_rejected(
                        old(self)@.configuration,
                        parameters@,
                        d.configuration,
                    ))
                } else {
                    &&& final(self)@ == old(self)@
                    &&& r == Result::<(), RoomError>::Err(RoomError::StateRejected)
                }
            }),
    {
        let my_summary = self.summarize(parameters);
        let delta_in = other_state.delta(parameters, &my_summary);
        self.apply_delta(parameters, &delta_in)
    }
}

} // verus!
