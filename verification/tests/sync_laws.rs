use ed25519_dalek::SigningKey;
use rand::rngs::OsRng;
use river_core::errors::RoomError;
use river_core::invites::{
    create_invitation, PendingInvites, PendingRoomJoin, PendingRoomStatus,
};
use river_core::configuration::{AuthorizedConfiguration, Configuration};
use river_core::member::{AuthorizedMember, Member, MemberId, Members};
use river_core::message::{AuthorizedMessageV1, MessageV1};
use river_core::room_key::owner_vk_to_contract_key;
use river_core::room_state::{ChatRoomStateV1, ChatRoomStateV1Delta};
use river_core::sync::{
    ConnAction, ConnectionMachine, HostEvent, ResponseHandler, RoomSyncStatus, RoomSynchronizer,
    SyncAction, SynchronizerStatus,
};

fn fresh_key() -> SigningKey {
    SigningKey::generate(&mut OsRng)
}

fn vk_bytes(sk: &SigningKey) -> Vec<u8> {
    sk.verifying_key().to_bytes().to_vec()
}

fn sk_bytes(sk: &SigningKey) -> Vec<u8> {
    sk.to_bytes().to_vec()
}

/// An empty room state whose configuration the owner has signed, so that
/// it verifies.
fn signed_room(owner_sk: &SigningKey) -> ChatRoomStateV1 {
    let mut state = ChatRoomStateV1::new();
    state.configuration = AuthorizedConfiguration::new(Configuration::default(), &sk_bytes(owner_sk));
    state
}

#[test]
fn put_retry_stops_after_third_failure() {
    // a Put fails on the transport three consecutive times: the
    // synchronizer reports a terminal error for that room after the third
    // failure and never retries a fourth time for that request
    let owner_sk = fresh_key();
    let owner_vk = vk_bytes(&owner_sk);

    let mut sync = RoomSynchronizer::new();
    sync.register_room(owner_vk.clone(), sk_bytes(&fresh_key()), ChatRoomStateV1::new());
    let actions = sync.process_rooms();
    assert_eq!(actions.len(), 1);
    assert!(matches!(actions[0], SyncAction::PutState { .. }));

    // failures one and two: retry after a delay
    for _ in 0..2 {
        let action = sync.on_request_failed(&owner_vk, "transport failure".to_string());
        assert!(matches!(action, Some(SyncAction::RetryAfterDelay { .. })));
    }
    // failure three: terminal error, no further action
    let action = sync.on_request_failed(&owner_vk, "transport failure".to_string());
    assert!(action.is_none());
    assert!(matches!(
        sync.rooms[0].sync_status,
        RoomSyncStatus::Error(_)
    ));
    // a fourth failure still produces no Put
    let action = sync.on_request_failed(&owner_vk, "transport failure".to_string());
    assert!(action.is_none());

    // while the outer connection loop retries independently, forever
    let mut conn = ConnectionMachine::new();
    assert_eq!(conn.start_connect(), ConnAction::OpenConnection);
    for _ in 0..5 {
        let action = conn.on_connection_failed("handshake timeout".to_string());
        assert_eq!(action, ConnAction::ScheduleReconnect);
        assert!(matches!(conn.status, SynchronizerStatus::Error(_)));
        assert_eq!(conn.start_connect(), ConnAction::OpenConnection);
    }
    conn.on_connected();
    assert!(matches!(conn.status, SynchronizerStatus::Connected));
}

#[test]
fn room_bring_up_put_then_subscribe() {
    let owner_sk = fresh_key();
    let owner_vk = vk_bytes(&owner_sk);

    let mut sync = RoomSynchronizer::new();
    sync.register_room(owner_vk.clone(), sk_bytes(&fresh_key()), ChatRoomStateV1::new());
    assert!(matches!(sync.rooms[0].sync_status, RoomSyncStatus::Disconnected));

    let actions = sync.process_rooms();
    assert_eq!(actions.len(), 1);
    assert!(matches!(sync.rooms[0].sync_status, RoomSyncStatus::Putting));

    let action = sync.on_put_response(&owner_vk);
    assert!(matches!(action, Some(SyncAction::Subscribe { .. })));
    assert!(matches!(sync.rooms[0].sync_status, RoomSyncStatus::Subscribing));

    sync.on_subscribe_response(&owner_vk, true, String::new());
    assert!(matches!(sync.rooms[0].sync_status, RoomSyncStatus::Subscribed));

    // a put acknowledgment for an unknown room is discarded
    let other = vk_bytes(&fresh_key());
    assert!(sync.on_put_response(&other).is_none());
}

#[test]
fn pending_invite_resolves_exactly_once() {
    let owner_sk = fresh_key();
    let owner_vk = vk_bytes(&owner_sk);
    let inviter_sk = fresh_key();
    let invitee_sk = fresh_key();

    let invitation = create_invitation(
        &owner_vk,
        &sk_bytes(&inviter_sk),
        sk_bytes(&invitee_sk),
        "Invitee".to_string(),
    );
    assert_eq!(invitation.room, owner_vk);
    assert_eq!(invitation.invitee.member.member_vk, vk_bytes(&invitee_sk));

    let mut pending = PendingInvites::new();
    pending.track(
        owner_vk.clone(),
        PendingRoomJoin {
            authorized_member: invitation.invitee.clone(),
            invitee_signing_key: invitation.invitee_signing_key.clone(),
            preferred_nickname: "Invitee".to_string(),
            status: PendingRoomStatus::Retrieving,
        },
    );

    let mut sync = RoomSynchronizer::new();
    // the fetched room state resolves the invite and promotes the room
    assert!(sync
        .on_get_response(&mut pending, &owner_vk, signed_room(&owner_sk))
        .is_ok());
    assert_eq!(sync.rooms.len(), 1);
    assert_eq!(sync.rooms[0].owner_vk, owner_vk);
    assert_eq!(sync.rooms[0].self_sk, sk_bytes(&invitee_sk));
    assert_eq!(pending.entries[0].join.status, PendingRoomStatus::Retrieved);

    // a second fetch for the same key is an ordinary update, not another
    // promotion
    assert!(sync
        .on_get_response(&mut pending, &owner_vk, signed_room(&owner_sk))
        .is_ok());
    assert_eq!(sync.rooms.len(), 1);
}

#[test]
fn response_handler_routes_events() {
    let owner_sk = fresh_key();
    let owner_vk = vk_bytes(&owner_sk);

    let mut sync = RoomSynchronizer::new();
    sync.register_room(owner_vk.clone(), sk_bytes(&fresh_key()), ChatRoomStateV1::new());
    sync.process_rooms();

    let shared = ResponseHandler::new_with_shared_synchronizer(&sync);
    drop(shared);

    let mut handler = ResponseHandler::new(sync);
    let mut pending = PendingInvites::new();

    assert_eq!(
        handler.handle_api_response(&mut pending, HostEvent::Acknowledged),
        Ok(None)
    );
    let routed = handler
        .handle_api_response(
            &mut pending,
            HostEvent::PutResponse { owner_vk: owner_vk.clone() },
        )
        .unwrap();
    assert!(matches!(routed, Some(SyncAction::Subscribe { .. })));
    assert!(matches!(
        handler.get_room_synchronizer().rooms[0].sync_status,
        RoomSyncStatus::Subscribing
    ));
    handler
        .handle_api_response(
            &mut pending,
            HostEvent::SubscribeResponse { owner_vk: owner_vk.clone(), subscribed: true },
        )
        .unwrap();
    assert!(matches!(
        handler.get_room_synchronizer_mut().rooms[0].sync_status,
        RoomSyncStatus::Subscribed
    ));
}

#[test]
fn local_mutation_is_applied_then_transmitted() {
    let owner_sk = fresh_key();
    let owner_vk = vk_bytes(&owner_sk);
    let owner_id = MemberId::new(&owner_vk);
    let member_sk = fresh_key();
    let member = Member {
        owner_member_id: owner_id,
        invited_by: owner_id,
        member_vk: vk_bytes(&member_sk),
        nickname: "Poster".to_string(),
    };
    let member_id = member.id();

    let mut state = signed_room(&owner_sk);
    state.members = Members {
        members: vec![AuthorizedMember::new(member, &sk_bytes(&owner_sk))],
    };

    let mut sync = RoomSynchronizer::new();
    sync.register_room(owner_vk.clone(), sk_bytes(&member_sk), state);

    // posting a message applies it locally and hands back an outbound
    // update to transmit
    let msg = AuthorizedMessageV1::new(
        MessageV1 {
            owner_member_id: owner_id,
            author: member_id,
            time: 1000,
            content: "posted locally".to_string(),
        },
        &sk_bytes(&member_sk),
    );
    let delta = ChatRoomStateV1Delta {
        configuration: None,
        members: None,
        member_info: None,
        recent_messages: Some(vec![msg.clone()]),
    };
    let action = sync.apply_local_delta(&owner_vk, &delta).unwrap();
    assert!(matches!(action, Some(SyncAction::SendUpdate { .. })));
    assert!(sync.rooms[0]
        .room_state
        .recent_messages
        .messages
        .iter()
        .any(|m| m.id() == msg.id()));
}

#[test]
fn room_key_is_deterministic_in_owner_and_code() {
    let owner_sk = fresh_key();
    let owner_vk = vk_bytes(&owner_sk);
    let code = vec![0u8; 8];

    let k1 = owner_vk_to_contract_key(&owner_vk, &code);
    let k2 = owner_vk_to_contract_key(&owner_vk, &code);
    assert_eq!(k1, k2);
    assert_eq!(k1.len(), 32);
    // the key is a hash, not the owner key handed back
    assert_ne!(k1, owner_vk);

    let other_vk = vk_bytes(&fresh_key());
    assert_ne!(owner_vk_to_contract_key(&other_vk, &code), k1);
}

#[test]
fn member_id_matches_registry_hash() {
    // hash = hash * 31 + byte over wrapping i64 arithmetic
    assert_eq!(MemberId::new(&[1, 2]), MemberId(33));
    assert_eq!(MemberId::new(&[]), MemberId(0));
    // and it agrees with the hash the registry crate computes
    let bytes = [7u8, 1, 255, 3];
    assert_eq!(
        MemberId::new(&bytes),
        MemberId(freenet_scaffold::util::fast_hash(&bytes).0)
    );
}

#[test]
fn decode_room_owner_key_checks_length_and_curve() {
    let owner_sk = fresh_key();
    let owner_vk = vk_bytes(&owner_sk);
    let encoded = bs58::encode(&owner_vk).into_string();
    assert_eq!(
        river_core::cli::decode_room_owner_key(&encoded).unwrap(),
        owner_vk
    );
    // wrong length
    assert_eq!(
        river_core::cli::decode_room_owner_key(&bs58::encode([1u8; 16]).into_string()),
        Err(RoomError::CodecError)
    );
    // not base58 at all
    assert_eq!(
        river_core::cli::decode_room_owner_key("not base58 !!!"),
        Err(RoomError::CodecError)
    );
}
