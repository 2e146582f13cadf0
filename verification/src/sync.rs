//! Network synchronizer, modelled as a pure protocol state machine.
//!
//! The transport (a persistent bidirectional channel to the network host)
//! stays outside this crate: a driver loop performs the `SyncAction`s this
//! module emits and feeds the resulting `HostEvent`s back in.  This module
//! owns every decision: when to put and subscribe a room, how merge results
//! change room state, how often a failed request is retried (three
//! attempts, then a terminal error for that request), and that a lost
//! connection is always scheduled for reconnection — the synchronizer never
//! gives up on the connection.

use vstd::prelude::*;

use crate::errors::RoomError;
use crate::invites::{PendingInvites, PendingRoomJoin};
use crate::member::{bytes_eq, copy_bytes, copy_string};
use crate::room_state::{
    room_apply, room_delta_spec, room_summary, room_verified, ChatRoomParametersV1,
    ChatRoomStateV1, ChatRoomStateV1Delta,
};

verus! {

/// Handshake timeout for the connection, in milliseconds.
pub const CONNECTION_TIMEOUT_MS: u64 = 5000;

/// Fixed delay before the connection is retried, in milliseconds.
pub const RECONNECT_INTERVAL_MS: u64 = 3000;

/// Attempts granted to one outbound request before a terminal error.
pub const MAX_REQUEST_RETRIES: u8 = 3;

/// Delay between attempts of one outbound request, in milliseconds.
pub const RETRY_DELAY_MS: u64 = 500;

// ------------------------------------------------------------------
// Connection machine
// ------------------------------------------------------------------

/// Connection-level status, as shown to collaborators.
#[derive(Clone, Debug, PartialEq)]
pub enum SynchronizerStatus {
    Disconnected,
    Connecting,
    Connected,
    Error(String),
}

/// Mathematical value of a `SynchronizerStatus`.
pub ghost enum SynchronizerStatusV {
    Disconnected,
    Connecting,
    Connected,
    Error { reason: Seq<char> },
}

impl View for SynchronizerStatus {
    type V = SynchronizerStatusV;

    open spec fn view(&self) -> SynchronizerStatusV {
        match self {
            SynchronizerStatus::Disconnected => SynchronizerStatusV::Disconnected,
            SynchronizerStatus::Connecting => SynchronizerStatusV::Connecting,
            SynchronizerStatus::Connected => SynchronizerStatusV::Connected,
            SynchronizerStatus::Error(e) => SynchronizerStatusV::Error { reason: e@ },
        }
    }
}

/// What the driver must do to the connection next.
#[derive(Clone, Copy, PartialEq, Eq, Structural, Debug)]
pub enum ConnAction {
    /// Open a fresh channel to the host.
    OpenConnection,
    /// Wait `RECONNECT_INTERVAL_MS` and send `Connect` again.
    ScheduleReconnect,
}

/// The connection half of the synchronizer.
#[derive(Debug)]
pub struct ConnectionMachine {
    pub status: SynchronizerStatus,
}

impl ConnectionMachine {
    /// A fresh, disconnected machine.
    pub fn new() -> (r: ConnectionMachine)
        ensures
            r.status@ is Disconnected,
    {
        ConnectionMachine { status: SynchronizerStatus::Disconnected }
    }

    /// Begin connecting.
    pub fn start_connect(&mut self) -> (r: ConnAction)
        ensures
            final(self).status@ is Connecting,
            r == ConnAction::OpenConnection,
    {
        self.status = SynchronizerStatus::Connecting;
        ConnAction::OpenConnection
    }

    /// The handshake completed.
    pub fn on_connected(&mut self)
        ensures
            final(self).status@ is Connected,
    {
        self.status = SynchronizerStatus::Connected;
    }

    /// The handshake failed or timed out, or the channel dropped.  The
    /// connection is always retried: the synchronizer never gives up.
    pub fn on_connection_failed(&mut self, reason: String) -> (r: ConnAction)
        ensures
            final(self).status@ == (SynchronizerStatusV::Error { reason: reason@ }),
            r == ConnAction::ScheduleReconnect,
    {
        self.status = SynchronizerStatus::Error(reason);
        ConnAction::ScheduleReconnect
    }
}

// ------------------------------------------------------------------
// Per-room machine
// ------------------------------------------------------------------

/// Per-room synchronization status.
#[derive(Clone, Debug, PartialEq)]
pub enum RoomSyncStatus {
    /// Not yet announced to the host.
    Disconnected,
    /// Full state sent as a `Put`, waiting for the acknowledgment.
    Putting,
    /// `Subscribe` sent, waiting for the acknowledgment.
    Subscribing,
    /// In steady-state sync.
    Subscribed,
    /// A request for this room failed terminally.
    Error(String),
}

/// Mathematical value of a `RoomSyncStatus`.
pub ghost enum RoomSyncStatusV {
    Disconnected,
    Putting,
    Subscribing,
    Subscribed,
    Error { reason: Seq<char> },
}

impl View for RoomSyncStatus {
    type V = RoomSyncStatusV;

    open spec fn view(&self) -> RoomSyncStatusV {
        match self {
            RoomSyncStatus::Disconnected => RoomSyncStatusV::Disconnected,
            RoomSyncStatus::Putting => RoomSyncStatusV::Putting,
            RoomSyncStatus::Subscribing => RoomSyncStatusV::Subscribing,
            RoomSyncStatus::Subscribed => RoomSyncStatusV::Subscribed,
            RoomSyncStatus::Error(e) => RoomSyncStatusV::Error { reason: e@ },
        }
    }
}

/// What the driver must send to the host for a room.
#[derive(Clone, Debug, PartialEq)]
pub enum SyncAction {
    /// Send the room's full serialized state as a `Put`.
    PutState { owner_vk: Vec<u8> },
    /// Send a `Subscribe` for the room.
    Subscribe { owner_vk: Vec<u8> },
    /// Wait `RETRY_DELAY_MS`, then retry the room's pending request.
    RetryAfterDelay { owner_vk: Vec<u8> },
    /// Transmit the room's current state as an outbound update.
    SendUpdate { owner_vk: Vec<u8> },
}

/// Mathematical value of a `SyncAction`.
pub ghost enum SyncActionV {
    PutState { owner_vk: Seq<u8> },
    Subscribe { owner_vk: Seq<u8> },
    RetryAfterDelay { owner_vk: Seq<u8> },
    SendUpdate { owner_vk: Seq<u8> },
}

impl View for SyncAction {
    type V = SyncActionV;

    open spec fn view(&self) -> SyncActionV {
        match self {
            SyncAction::PutState { owner_vk } => SyncActionV::PutState { owner_vk: owner_vk@ },
            SyncAction::Subscribe { owner_vk } => SyncActionV::Subscribe { owner_vk: owner_vk@ },
            SyncAction::RetryAfterDelay { owner_vk } => SyncActionV::RetryAfterDelay {
                owner_vk: owner_vk@,
            },
            SyncAction::SendUpdate { owner_vk } => SyncActionV::SendUpdate {
                owner_vk: owner_vk@,
            },
        }
    }
}

/// One room under synchronization.
#[derive(Debug)]
pub struct RoomEntry {
    /// The room owner's verifying key; also the room's address.
    pub owner_vk: Vec<u8>,
    /// The signing key this peer acts with in the room.
    pub self_sk: Vec<u8>,
    /// The replicated room state.
    pub room_state: ChatRoomStateV1,
    /// Where the room stands in the put/subscribe bring-up.
    pub sync_status: RoomSyncStatus,
    /// Failed attempts of the room's current outbound request.
    pub request_attempts: u8,
}

/// Mathematical value of a `RoomEntry`.
pub ghost struct RoomEntryV {
    pub owner_vk: Seq<u8>,
    pub self_sk: Seq<u8>,
    pub room_state: crate::room_state::ChatRoomStateV,
    pub sync_status: RoomSyncStatusV,
    pub request_attempts: u8,
}

impl View for RoomEntry {
    type V = RoomEntryV;

    open spec fn view(&self) -> RoomEntryV {
        RoomEntryV {
            owner_vk: self.owner_vk@,
            self_sk: self.self_sk@,
            room_state: self.room_state@,
            sync_status: self.sync_status@,
            request_attempts: self.request_attempts,
        }
    }
}

/// First room entry for an owner key, or -1.
pub open spec fn room_idx_first(s: Seq<RoomEntryV>, owner_vk: Seq<u8>) -> int
    decreases s.len(),
{
    if s.len() == 0 {
        -1
    } else if s[0].owner_vk == owner_vk {
        0
    } else {
        let rest = room_idx_first(s.drop_first(), owner_vk);
        if rest < 0 {
            -1
        } else {
            rest + 1
        }
    }
}

/// `room_idx_first` returns -1 with no occurrence, or the least index of
/// one.
pub proof fn lemma_room_idx_first(s: Seq<RoomEntryV>, owner_vk: Seq<u8>)
    ensures
        -1 <= room_idx_first(s, owner_vk) < s.len(),
        room_idx_first(s, owner_vk) >= 0 ==> s[room_idx_first(s, owner_vk)].owner_vk == owner_vk,
        forall|k: int| 0 <= k < room_idx_first(s, owner_vk) ==> s[k].owner_vk != owner_vk,
        room_idx_first(s, owner_vk) == -1 ==> forall|k: int|
            0 <= k < s.len() ==> s[k].owner_vk != owner_vk,
    decreases s.len(),
{
    if s.len() == 0 {
    } else if s[0].owner_vk == owner_vk {
    } else {
        lemma_room_idx_first(s.drop_first(), owner_vk);
        assert(forall|k: int| 1 <= k < s.len() ==> s[k] == s.drop_first()[k - 1]);
    }
}

/// An inbound protocol event, already decoded to plain values by the
/// driver.
#[derive(Debug)]
pub enum HostEvent {
    /// A bare acknowledgment with no payload.
    Acknowledged,
    /// The host acknowledged the room's `Put`.
    PutResponse { owner_vk: Vec<u8> },
    /// The host answered the room's `Subscribe`.
    SubscribeResponse { owner_vk: Vec<u8>, subscribed: bool },
    /// An update notification carrying a full state.
    UpdateState { owner_vk: Vec<u8>, state: ChatRoomStateV1 },
    /// An update notification carrying a delta.
    UpdateDelta { owner_vk: Vec<u8>, delta: ChatRoomStateV1Delta },
    /// A `Get` completed with the room's full state.
    GetResponse { owner_vk: Vec<u8>, state: ChatRoomStateV1 },
}

/// Keeps the local room replicas in step with the host.
#[derive(Debug)]
pub struct RoomSynchronizer {
    pub rooms: Vec<RoomEntry>,
}

impl View for RoomSynchronizer {
    type V = Seq<RoomEntryV>;

    open spec fn view(&self) -> Seq<RoomEntryV> {
        self.rooms@.map_values(|e: RoomEntry| e@)
    }
}

impl RoomSynchronizer {
    /// A synchronizer with no rooms.
    pub fn new() -> (r: RoomSynchronizer)
        ensures
            r@ =~= Seq::<RoomEntryV>::empty(),
    {
        let r = RoomSynchronizer { rooms: Vec::new() };
        proof {
            assert(r.rooms@.map_values(|e: RoomEntry| e@) =~= Seq::<RoomEntryV>::empty());
        }
        r
    }

    /// Find the room entry for an owner key.
    fn find_room(&self, owner_vk: &[u8]) -> (r: Option<usize>)
        ensures
            r matches Some(i) ==> room_idx_first(self@, owner_vk@) == i as int,
            r is None ==> room_idx_first(self@, owner_vk@) == -1,
    {
        let ghost s = self@;
        proof {
            lemma_room_idx_first(s, owner_vk@);
        }
        let n = self.rooms.len();
        let mut i: usize = 0;
        while i < n
            invariant
                0 <= i <= n,
                n == self.rooms@.len(),
                s == self@,
                -1 <= room_idx_first(s, owner_vk@) < s.len(),
                room_idx_first(s, owner_vk@) >= 0 ==> s[room_idx_first(s, owner_vk@)].owner_vk
                    == owner_vk@,
                forall|k: int| 0 <= k < room_idx_first(s, owner_vk@) ==> s[k].owner_vk != owner_vk@,
                room_idx_first(s, owner_vk@) == -1 ==> forall|k: int|
                    0 <= k < s.len() ==> s[k].owner_vk != owner_vk@,
                forall|k: int| 0 <= k < i ==> s[k].owner_vk != owner_vk@,
            decreases n - i,
        {
            if bytes_eq(self.rooms[i].owner_vk.as_slice(), owner_vk) {
                proof {
                    assert(s[i as int].owner_vk == owner_vk@);
                    if room_idx_first(s, owner_vk@) < i {
                        if room_idx_first(s, owner_vk@) >= 0 {
                            assert(s[room_idx_first(s, owner_vk@)].owner_vk != owner_vk@);
                        }
                    }
                    if room_idx_first(s, owner_vk@) > i {
                        assert(s[i as int].owner_vk != owner_vk@);
                    }
                }
                return Some(i);
            }
            i = i + 1;
        }
        proof {
            if room_idx_first(s, owner_vk@) >= 0 {
                assert(s[room_idx_first(s, owner_vk@)].owner_vk != owner_vk@);
            }
        }
        None
    }

    /// Add a room to the active set, ready for its first `Put`.
    pub fn register_room(&mut self, owner_vk: Vec<u8>, self_sk: Vec<u8>, room_state: ChatRoomStateV1)
        ensures
            final(self)@.len() == old(self)@.len() + 1,
            final(self)@.last().owner_vk == owner_vk@,
            final(self)@.last().self_sk == self_sk@,
            final(self)@.last().room_state == room_state@,
            final(self)@.last().sync_status is Disconnected,
            final(self)@.last().request_attempts == 0,
            forall|k: int| 0 <= k < old(self)@.len() ==> final(self)@[k] == old(self)@[k],
    {
        let ghost pre = self@;
        let entry = RoomEntry {
            owner_vk,
            self_sk,
            room_state,
            sync_status: RoomSyncStatus::Disconnected,
            request_attempts: 0,
        };
        let ghost ev = entry@;
        self.rooms.push(entry);
        proof {
            assert(self@ =~= pre.push(ev));
        }
    }

    /// On first contact, every room that has not been announced yet sends
    /// its full state as a `Put` and moves to `Putting` with a fresh
    /// attempt counter.
    pub fn process_rooms(&mut self) -> (r: Vec<SyncAction>)
        ensures
            final(self)@.len() == old(self)@.len(),
            forall|k: int|
                0 <= k < old(self)@.len() ==> final(self)@[k] == if old(
                    self,
                )@[k].sync_status is Disconnected {
                    RoomEntryV {
                        sync_status: RoomSyncStatusV::Putting,
                        request_attempts: 0,
                        ..old(self)@[k]
                    }
                } else {
                    old(self)@[k]
                },
            r@.map_values(|a: SyncAction| a@) == old(self)@.filter(
                |e: RoomEntryV| e.sync_status is Disconnected,
            ).map_values(|e: RoomEntryV| SyncActionV::PutState { owner_vk: e.owner_vk }),
    {
        let ghost s0 = self@;
        let n = self.rooms.len();
        let mut actions: Vec<SyncAction> = Vec::new();
        let mut i: usize = 0;
        while i < n
            invariant
                0 <= i <= n,
                n == self.rooms@.len(),
                self@.len() == s0.len(),
                forall|k: int| i <= k < s0.len() ==> self@[k] == s0[k],
                forall|k: int|
                    0 <= k < i ==> self@[k] == if s0[k].sync_status is Disconnected {
                        RoomEntryV {
                            sync_status: RoomSyncStatusV::Putting,
                            request_attempts: 0,
                            ..s0[k]
                        }
                    } else {
                        s0[k]
                    },
                actions@.map_values(|a: SyncAction| a@) == s0.subrange(0, i as int).filter(
                    |e: RoomEntryV| e.sync_status is Disconnected,
                ).map_values(|e: RoomEntryV| SyncActionV::PutState { owner_vk: e.owner_vk }),
            decreases n - i,
        {
            let ghost pre = s0.subrange(0, i as int);
            let ghost pre_actions = actions@.map_values(|a: SyncAction| a@);
            let disconnected = match &self.rooms[i].sync_status {
                RoomSyncStatus::Disconnected => true,
                _ => false,
            };
            if disconnected {
                let owner_vk = copy_bytes(&self.rooms[i].owner_vk);
                let ghost pre_rooms = self@;
                let entry = vstd::std_specs::vec::vec_index_mut(&mut self.rooms, i);
                entry.sync_status = RoomSyncStatus::Putting;
                entry.request_attempts = 0;
                proof {
                    assert(self@ =~= pre_rooms.update(
                        i as int,
                        RoomEntryV {
                            sync_status: RoomSyncStatusV::Putting,
                            request_attempts: 0,
                            ..pre_rooms[i as int]
                        },
                    ));
                }
                actions.push(SyncAction::PutState { owner_vk });
                proof {
                    assert(actions@.map_values(|a: SyncAction| a@) =~= pre_actions.push(
                        SyncActionV::PutState { owner_vk: s0[i as int].owner_vk },
                    ));
                }
            }
            proof {
                assert(s0.subrange(0, i + 1 as int) =~= pre.push(s0[i as int]));
                crate::seqs::lemma_filter_push(
                    pre,
                    s0[i as int],
                    |e: RoomEntryV| e.sync_status is Disconnected,
                );
                if disconnected {
                    assert(pre.filter(|e: RoomEntryV| e.sync_status is Disconnected).map_values(
                        |e: RoomEntryV| SyncActionV::PutState { owner_vk: e.owner_vk },
                    ).push(SyncActionV::PutState { owner_vk: s0[i as int].owner_vk }) =~= s0.subrange(
                        0,
                        i + 1 as int,
                    ).filter(|e: RoomEntryV| e.sync_status is Disconnected).map_values(
                        |e: RoomEntryV| SyncActionV::PutState { owner_vk: e.owner_vk },
                    ));
                } else {
                    assert(s0.subrange(0, i + 1 as int).filter(
                        |e: RoomEntryV| e.sync_status is Disconnected,
                    ).map_values(|e: RoomEntryV| SyncActionV::PutState { owner_vk: e.owner_vk })
                        =~= pre.filter(|e: RoomEntryV| e.sync_status is Disconnected).map_values(
                        |e: RoomEntryV| SyncActionV::PutState { owner_vk: e.owner_vk },
                    ));
                }
            }
            i = i + 1;
        }
        proof {
            assert(s0.subrange(0, n as int) =~= s0);
        }
        actions
    }

    /// The host acknowledged a room's `Put`: answer with a `Subscribe` and
    /// move the room to `Subscribing`.  An acknowledgment for an unknown or
    /// idle room is discarded.
    pub fn on_put_response(&mut self, owner_vk: &[u8]) -> (r: Option<SyncAction>)
        ensures
            ({
                let j = room_idx_first(old(self)@, owner_vk@);
                if j >= 0 && old(self)@[j].sync_status is Putting {
                    &&& final(self)@ == old(self)@.update(
                        j,
                        RoomEntryV {
                            sync_status: RoomSyncStatusV::Subscribing,
                            request_attempts: 0,
                            ..old(self)@[j]
                        },
                    )
                    &&& (r matches Some(a) && a@ == (SyncActionV::Subscribe {
                        owner_vk: owner_vk@,
                    }))
                } else {
                    final(self)@ == old(self)@ && r is None
                }
            }),
    {
        let ghost s0 = self@;
        match self.find_room(owner_vk) {
            None => None,
            Some(i) => {
                proof {
                    lemma_room_idx_first(s0, owner_vk@);
                }
                let putting = match &self.rooms[i].sync_status {
                    RoomSyncStatus::Putting => true,
                    _ => false,
                };
                if !putting {
                    return None;
                }
                let entry = vstd::std_specs::vec::vec_index_mut(&mut self.rooms, i);
                entry.sync_status = RoomSyncStatus::Subscribing;
                entry.request_attempts = 0;
                proof {
                    assert(self@ =~= s0.update(
                        i as int,
                        RoomEntryV {
                            sync_status: RoomSyncStatusV::Subscribing,
                            request_attempts: 0,
                            ..s0[i as int]
                        },
                    ));
                }
                Some(SyncAction::Subscribe { owner_vk: slice_to_bytes(owner_vk) })
            },
        }
    }

    /// The host answered a room's `Subscribe`: accepted marks the room
    /// `Subscribed`, refused marks it failed.
    pub fn on_subscribe_response(&mut self, owner_vk: &[u8], subscribed: bool, reason: String)
        ensures
            ({
                let j = room_idx_first(old(self)@, owner_vk@);
                if j >= 0 && old(self)@[j].sync_status is Subscribing {
                    if subscribed {
                        final(self)@ == old(self)@.update(
                            j,
                            RoomEntryV { sync_status: RoomSyncStatusV::Subscribed, ..old(self)@[j] },
                        )
                    } else {
                        final(self)@ == old(self)@.update(
                            j,
                            RoomEntryV {
                                sync_status: RoomSyncStatusV::Error { reason: reason@ },
                                ..old(self)@[j]
                            },
                        )
                    }
                } else {
                    final(self)@ == old(self)@
                }
            }),
    {
        let ghost s0 = self@;
        match self.find_room(owner_vk) {
            None => {},
            Some(i) => {
                proof {
                    lemma_room_idx_first(s0, owner_vk@);
                }
                let subscribing = match &self.rooms[i].sync_status {
                    RoomSyncStatus::Subscribing => true,
                    _ => false,
                };
                if subscribing {
                    let entry = vstd::std_specs::vec::vec_index_mut(&mut self.rooms, i);
                    if subscribed {
                        entry.sync_status = RoomSyncStatus::Subscribed;
                        proof {
                            assert(self@ =~= s0.update(
                                i as int,
                                RoomEntryV {
                                    sync_status: RoomSyncStatusV::Subscribed,
                                    ..s0[i as int]
                                },
                            ));
                        }
                    } else {
                        entry.sync_status = RoomSyncStatus::Error(reason);
                        proof {
                            assert(self@ =~= s0.update(
                                i as int,
                                RoomEntryV {
                                    sync_status: RoomSyncStatusV::Error {
                                        reason: self@[i as int].sync_status->Error_reason,
                                    },
                                    ..s0[i as int]
                                },
                            ));
                        }
                    }
                }
            },
        }
    }

    /// One outbound request for a room failed on the transport.  Up to
    /// `MAX_REQUEST_RETRIES` attempts are made, `RETRY_DELAY_MS` apart;
    /// after the last one the room surfaces a terminal error and this
    /// request is never retried again.  The connection-level reconnect loop
    /// is independent of this bound.
    pub fn on_request_failed(&mut self, owner_vk: &[u8], reason: String) -> (r: Option<SyncAction>)
        ensures
            ({
                let j = room_idx_first(old(self)@, owner_vk@);
                if j >= 0 {
                    if old(self)@[j].request_attempts + 1 < MAX_REQUEST_RETRIES {
                        &&& final(self)@ == old(self)@.update(
                            j,
                            RoomEntryV {
                                request_attempts: (old(self)@[j].request_attempts + 1) as u8,
                                ..old(self)@[j]
                            },
                        )
                        &&& (r matches Some(a) && a@ == (SyncActionV::RetryAfterDelay {
                            owner_vk: owner_vk@,
                        }))
                    } else {
                        &&& final(self)@ == old(self)@.update(
                            j,
                            RoomEntryV {
                                sync_status: RoomSyncStatusV::Error { reason: reason@ },
                                ..old(self)@[j]
                            },
                        )
                        &&& r is None
                    }
                } else {
                    final(self)@ == old(self)@ && r is None
                }
            }),
    {
        let ghost s0 = self@;
        match self.find_room(owner_vk) {
            None => None,
            Some(i) => {
                proof {
                    lemma_room_idx_first(s0, owner_vk@);
                }
                let attempts = self.rooms[i].request_attempts;
                if attempts < MAX_REQUEST_RETRIES && attempts + 1 < MAX_REQUEST_RETRIES {
                    let entry = vstd::std_specs::vec::vec_index_mut(&mut self.rooms, i);
                    entry.request_attempts = attempts + 1;
                    proof {
                        assert(self@ =~= s0.update(
                            i as int,
                            RoomEntryV {
                                request_attempts: (s0[i as int].request_attempts + 1) as u8,
                                ..s0[i as int]
                            },
                        ));
                    }
                    Some(SyncAction::RetryAfterDelay { owner_vk: slice_to_bytes(owner_vk) })
                } else {
                    let entry = vstd::std_specs::vec::vec_index_mut(&mut self.rooms, i);
                    entry.sync_status = RoomSyncStatus::Error(reason);
                    proof {
                        assert(self@ =~= s0.update(
                            i as int,
                            RoomEntryV {
                                sync_status: self@[i as int].sync_status,
                                ..s0[i as int]
                            },
                        ));
                    }
                    None
                }
            },
        }
    }

    /// An inbound update notification carrying a full state: merge it into
    /// the room's replica.  Updates for unknown rooms are discarded.
    pub fn on_update_state(&mut self, owner_vk: &[u8], state: &ChatRoomStateV1) -> (r: Result<
        (),
        RoomError,
    >)
        ensures
            ({
                let j = room_idx_first(old(self)@, owner_vk@);
                if j >= 0 {
                    let d = room_delta_spec(state@, room_summary(old(self)@[j].room_state));
                    let merged = room_apply(old(self)@[j].room_state, owner_vk@, d);
                    if room_verified(merged, owner_vk@) {
                        final(self)@ == old(self)@.update(
                            j,
                            RoomEntryV { room_state: merged, ..old(self)@[j] },
                        )
                    } else {
                        final(self)@ == old(self)@ && r == Result::<(), RoomError>::Err(
                            RoomError::StateRejected,
                        )
                    }
                } else {
                    final(self)@ == old(self)@ && r is Ok
                }
            }),
    {
        let ghost s0 = self@;
        match self.find_room(owner_vk) {
            None => Ok(()),
            Some(i) => {
                proof {
                    lemma_room_idx_first(s0, owner_vk@);
                }
                let parameters = ChatRoomParametersV1 { owner: slice_to_bytes(owner_vk) };
                let entry = vstd::std_specs::vec::vec_index_mut(&mut self.rooms, i);
                let res = entry.room_state.merge(&parameters, state);
                proof {
                    assert(self@ =~= s0.update(
                        i as int,
                        RoomEntryV { room_state: self@[i as int].room_state, ..s0[i as int] },
                    ));
                }
                res
            },
        }
    }

    /// An inbound update notification carrying a delta: apply it to the
    /// room's replica.  Updates for unknown rooms are discarded.
    pub fn on_update_delta(&mut self, owner_vk: &[u8], delta: &ChatRoomStateV1Delta) -> (r: Result<
        (),
        RoomError,
    >)
        ensures
            ({
                let j = room_idx_first(old(self)@, owner_vk@);
                if j >= 0 {
                    let merged = room_apply(old(self)@[j].room_state, owner_vk@, delta@);
                    if room_verified(merged, owner_vk@) {
                        final(self)@ == old(self)@.update(
                            j,
                            RoomEntryV { room_state: merged, ..old(self)@[j] },
                        )
                    } else {
                        final(self)@ == old(self)@ && r == Result::<(), RoomError>::Err(
                            RoomError::StateRejected,
                        )
                    }
                } else {
                    final(self)@ == old(self)@ && r is Ok
                }
            }),
    {
        let ghost s0 = self@;
        match self.find_room(owner_vk) {
            None => Ok(()),
            Some(i) => {
                proof {
                    lemma_room_idx_first(s0, owner_vk@);
                }
                let parameters = ChatRoomParametersV1 { owner: slice_to_bytes(owner_vk) };
                let entry = vstd::std_specs::vec::vec_index_mut(&mut self.rooms, i);
                let res = entry.room_state.apply_delta(&parameters, delta);
                proof {
                    assert(self@ =~= s0.update(
                        i as int,
                        RoomEntryV { room_state: self@[i as int].room_state, ..s0[i as int] },
                    ));
                }
                res
            },
        }
    }

    /// A local mutation produced a delta: apply it optimistically to the
    /// room's own replica, and, if it takes, hand the driver an outbound
    /// update to transmit.  A rejected delta changes nothing and sends
    /// nothing.
    pub fn apply_local_delta(&mut self, owner_vk: &[u8], delta: &ChatRoomStateV1Delta) -> (r:
        Result<Option<SyncAction>, RoomError>)
        ensures
            ({
                let j = room_idx_first(old(self)@, owner_vk@);
                if j >= 0 {
                    let merged = room_apply(old(self)@[j].room_state, owner_vk@, delta@);
                    if room_verified(merged, owner_vk@) {
                        &&& final(self)@ == old(self)@.update(
                            j,
                            RoomEntryV { room_state: merged, ..old(self)@[j] },
                        )
                        &&& (r is Ok <==> !crate::configuration::config_delta_rejected(
                            old(self)@[j].room_state.configuration,
                            owner_vk@,
                            delta@.configuration,
                        ))
                        &&& (r matches Ok(a) ==> a matches Some(act) && act@
                            == (SyncActionV::SendUpdate { owner_vk: owner_vk@ }))
                    } else {
                        &&& final(self)@ == old(self)@
                        &&& r == Result::<Option<SyncAction>, RoomError>::Err(
                            RoomError::StateRejected,
                        )
                    }
                } else {
                    final(self)@ == old(self)@ && r == Result::<
                        Option<SyncAction>,
                        RoomError,
                    >::Ok(None)
                }
            }),
    {
        let ghost s0 = self@;
        match self.find_room(owner_vk) {
            None => Ok(None),
            Some(i) => {
                proof {
                    lemma_room_idx_first(s0, owner_vk@);
                }
                let parameters = ChatRoomParametersV1 { owner: slice_to_bytes(owner_vk) };
                let entry = vstd::std_specs::vec::vec_index_mut(&mut self.rooms, i);
                let res = entry.room_state.apply_delta(&parameters, delta);
                proof {
                    assert(self@ =~= s0.update(
                        i as int,
                        RoomEntryV { room_state: self@[i as int].room_state, ..s0[i as int] },
                    ));
                }
                match res {
                    Ok(()) => Ok(
                        Some(SyncAction::SendUpdate { owner_vk: slice_to_bytes(owner_vk) }),
                    ),
                    Err(e) => Err(e),
                }
            },
        }
    }

    /// A fetched room state arrived.  If it answers a pending invitation,
    /// the invitation is resolved exactly once: the room joins the active
    /// set bound to the invite's signing key.  Otherwise the state is an
    /// ordinary update.
    pub fn on_get_response(
        &mut self,
        pending: &mut PendingInvites,
        owner_vk: &[u8],
        state: ChatRoomStateV1,
    ) -> (r: Result<(), RoomError>)
        ensures
            ({
                let pj = crate::invites::pending_idx_first(old(pending)@, owner_vk@);
                pj >= 0 && old(pending)@[pj].join.status is Retrieving
            }) ==> {
                &&& final(self)@.len() == old(self)@.len() + 1
                &&& final(self)@.last().owner_vk == owner_vk@
                &&& final(self)@.last().room_state == state@
                &&& final(self)@.last().sync_status is Disconnected
                &&& r is Ok
            },
            !({
                let pj = crate::invites::pending_idx_first(old(pending)@, owner_vk@);
                pj >= 0 && old(pending)@[pj].join.status is Retrieving
            }) ==> final(pending)@ == old(pending)@,
    {
        match pending.resolve(owner_vk) {
            Some(join) => {
                self.register_room(slice_to_bytes(owner_vk), join.invitee_signing_key, state);
                Ok(())
            },
            None => self.on_update_state(owner_vk, &state),
        }
    }

    /// A record-for-record copy.
    pub fn duplicate(&self) -> (r: RoomSynchronizer)
        ensures
            r@ == self@,
    {
        let ghost s = self@;
        let n = self.rooms.len();
        let mut out: Vec<RoomEntry> = Vec::new();
        let mut i: usize = 0;
        while i < n
            invariant
                0 <= i <= n,
                n == self.rooms@.len(),
                s == self@,
                out@.map_values(|e: RoomEntry| e@) =~= s.subrange(0, i as int),
            decreases n - i,
        {
            let ghost pre_map = out@.map_values(|e: RoomEntry| e@);
            let e = &self.rooms[i];
            let status = match &e.sync_status {
                RoomSyncStatus::Disconnected => RoomSyncStatus::Disconnected,
                RoomSyncStatus::Putting => RoomSyncStatus::Putting,
                RoomSyncStatus::Subscribing => RoomSyncStatus::Subscribing,
                RoomSyncStatus::Subscribed => RoomSyncStatus::Subscribed,
                RoomSyncStatus::Error(msg) => RoomSyncStatus::Error(copy_string(msg)),
            };
            out.push(
                RoomEntry {
                    owner_vk: copy_bytes(&e.owner_vk),
                    self_sk: copy_bytes(&e.self_sk),
                    room_state: e.room_state.duplicate(),
                    sync_status: status,
                    request_attempts: e.request_attempts,
                },
            );
            proof {
                assert(out@.map_values(|e: RoomEntry| e@) =~= pre_map.push(s[i as int]));
                assert(s.subrange(0, i + 1 as int) =~= s.subrange(0, i as int).push(s[i as int]));
            }
            i = i + 1;
        }
        let r = RoomSynchronizer { rooms: out };
        proof {
            assert(s.subrange(0, n as int) =~= s);
            assert(r@ =~= s);
        }
        r
    }
}

/// An owned copy of a borrowed byte string.
fn slice_to_bytes(b: &[u8]) -> (r: Vec<u8>)
    ensures
        r@ == b@,
{
    vstd::slice::slice_to_vec(b)
}

// ------------------------------------------------------------------
// Response handler
// ------------------------------------------------------------------

/// Routes decoded host responses into the room synchronizer.
#[derive(Debug)]
pub struct ResponseHandler {
    room_synchronizer: RoomSynchronizer,
}

impl View for ResponseHandler {
    type V = Seq<RoomEntryV>;

    closed spec fn view(&self) -> Seq<RoomEntryV> {
        self.room_synchronizer@
    }
}

impl ResponseHandler {
    /// Wrap a room synchronizer.
    pub fn new(room_synchronizer: RoomSynchronizer) -> (r: ResponseHandler)
        ensures
            r@ == room_synchronizer@,
    {
        ResponseHandler { room_synchronizer }
    }

    /// A handler over a copy of the given synchronizer's state.
    pub fn new_with_shared_synchronizer(synchronizer: &RoomSynchronizer) -> (r: ResponseHandler)
        ensures
            r@ == synchronizer@,
    {
        ResponseHandler { room_synchronizer: synchronizer.duplicate() }
    }

    /// Route one decoded host response.  Acknowledgments and responses for
    /// unknown rooms are no-ops; update notifications merge into the room
    /// they address; a fetched state may resolve a pending invitation.
    pub fn handle_api_response(&mut self, pending: &mut PendingInvites, response: HostEvent) -> (r:
        Result<Option<SyncAction>, RoomError>)
        ensures
            response is Acknowledged ==> final(self)@ == old(self)@ && final(pending)@ == old(
                pending,
            )@ && r == Result::<Option<SyncAction>, RoomError>::Ok(None),
            response matches HostEvent::PutResponse { owner_vk } ==> ({
                let j = room_idx_first(old(self)@, owner_vk@);
                &&& final(pending)@ == old(pending)@
                &&& if j >= 0 && old(self)@[j].sync_status is Putting {
                    &&& final(self)@ == old(self)@.update(
                        j,
                        RoomEntryV {
                            sync_status: RoomSyncStatusV::Subscribing,
                            request_attempts: 0,
                            ..old(self)@[j]
                        },
                    )
                    &&& (r matches Ok(a) && a matches Some(act) && act@
                        == (SyncActionV::Subscribe { owner_vk: owner_vk@ }))
                } else {
                    final(self)@ == old(self)@ && r == Result::<
                        Option<SyncAction>,
                        RoomError,
                    >::Ok(None)
                }
            }),
            response matches HostEvent::SubscribeResponse { owner_vk, subscribed } ==> ({
                let j = room_idx_first(old(self)@, owner_vk@);
                &&& final(pending)@ == old(pending)@
                &&& r == Result::<Option<SyncAction>, RoomError>::Ok(None)
                &&& if j >= 0 && old(self)@[j].sync_status is Subscribing {
                    if subscribed {
                        final(self)@ == old(self)@.update(
                            j,
                            RoomEntryV {
                                sync_status: RoomSyncStatusV::Subscribed,
                                ..old(self)@[j]
                            },
                        )
                    } else {
                        final(self)@[j].sync_status is Error && final(self)@.len() == old(
                            self,
                        )@.len()
                    }
                } else {
                    final(self)@ == old(self)@
                }
            }),
            response matches HostEvent::UpdateState { owner_vk, state } ==> ({
                let j = room_idx_first(old(self)@, owner_vk@);
                &&& final(pending)@ == old(pending)@
                &&& if j >= 0 {
                    let d = room_delta_spec(state@, room_summary(old(self)@[j].room_state));
                    let merged = room_apply(old(self)@[j].room_state, owner_vk@, d);
                    if room_verified(merged, owner_vk@) {
                        final(self)@ == old(self)@.update(
                            j,
                            RoomEntryV { room_state: merged, ..old(self)@[j] },
                        )
                    } else {
                        final(self)@ == old(self)@ && r == Result::<
                            Option<SyncAction>,
                            RoomError,
                        >::Err(RoomError::StateRejected)
                    }
                } else {
                    final(self)@ == old(self)@ && r == Result::<
                        Option<SyncAction>,
                        RoomError,
                    >::Ok(None)
                }
            }),
            response matches HostEvent::UpdateDelta { owner_vk, delta } ==> ({
                let j = room_idx_first(old(self)@, owner_vk@);
                &&& final(pending)@ == old(pending)@
                &&& if j >= 0 {
                    let merged = room_apply(old(self)@[j].room_state, owner_vk@, delta@);
                    if room_verified(merged, owner_vk@) {
                        final(self)@ == old(self)@.update(
                            j,
                            RoomEntryV { room_state: merged, ..old(self)@[j] },
                        )
                    } else {
                        final(self)@ == old(self)@ && r == Result::<
                            Option<SyncAction>,
                            RoomError,
                        >::Err(RoomError::StateRejected)
                    }
                } else {
                    final(self)@ == old(self)@ && r == Result::<
                        Option<SyncAction>,
                        RoomError,
                    >::Ok(None)
                }
            }),
            response matches HostEvent::GetResponse { owner_vk, state } ==> ({
                let pj = crate::invites::pending_idx_first(old(pending)@, owner_vk@);
                if pj >= 0 && old(pending)@[pj].join.status is Retrieving {
                    &&& final(self)@.len() == old(self)@.len() + 1
                    &&& final(self)@.last().owner_vk == owner_vk@
                    &&& final(self)@.last().room_state == state@
                    &&& final(self)@.last().sync_status is Disconnected
                } else {
                    final(pending)@ == old(pending)@
                }
            }),
    {
        match response {
            HostEvent::Acknowledged => Ok(None),
            HostEvent::PutResponse { owner_vk } => Ok(
                self.room_synchronizer.on_put_response(owner_vk.as_slice()),
            ),
            HostEvent::SubscribeResponse { owner_vk, subscribed } => {
                let ghost pre = self.room_synchronizer@;
                let reason = String::new();
                let ghost rv = reason@;
                self.room_synchronizer.on_subscribe_response(
                    owner_vk.as_slice(),
                    subscribed,
                    reason,
                );
                proof {
                    lemma_room_idx_first(pre, owner_vk@);
                    let j = room_idx_first(pre, owner_vk@);
                    if j >= 0 && pre[j].sync_status is Subscribing && !subscribed {
                        assert(self.room_synchronizer@ == pre.update(
                            j,
                            RoomEntryV {
                                sync_status: RoomSyncStatusV::Error { reason: rv },
                                ..pre[j]
                            },
                        ));
                        assert(self.room_synchronizer@[j].sync_status is Error);
                    }
                }
                Ok(None)
            },
            HostEvent::UpdateState { owner_vk, state } => {
                match self.room_synchronizer.on_update_state(owner_vk.as_slice(), &state) {
                    Ok(()) => Ok(None),
                    Err(e) => Err(e),
                }
            },
            HostEvent::UpdateDelta { owner_vk, delta } => {
                match self.room_synchronizer.on_update_delta(owner_vk.as_slice(), &delta) {
                    Ok(()) => Ok(None),
                    Err(e) => Err(e),
                }
            },
            HostEvent::GetResponse { owner_vk, state } => {
                match self.room_synchronizer.on_get_response(pending, owner_vk.as_slice(), state) {
                    Ok(()) => Ok(None),
                    Err(e) => Err(e),
                }
            },
        }
    }

    /// Mutable access to the underlying room synchronizer.
    pub fn get_room_synchronizer_mut(&mut self) -> (r: &mut RoomSynchronizer)
        ensures
            r@ == old(self)@,
            final(self)@ == final(r)@,
    {
        &mut self.room_synchronizer
    }

    /// Shared access to the underlying room synchronizer.
    pub fn get_room_synchronizer(&self) -> (r: &RoomSynchronizer)
        ensures
            r@ == self@,
    {
        &self.room_synchronizer
    }
}

} // verus!
