use ed25519_dalek::SigningKey;
use rand::rngs::OsRng;
use river_core::configuration::{AuthorizedConfiguration, Configuration};
use river_core::errors::RoomError;
use river_core::member::{AuthorizedMember, Member, MemberId, Members, MembersDelta};
use river_core::member_info::{AuthorizedMemberInfo, MemberInfo, MemberInfoV1};
use river_core::message::{AuthorizedMessageV1, MessageV1, MessagesV1};
use river_core::room_state::{ChatRoomParametersV1, ChatRoomStateV1, ChatRoomStateV1Delta};

fn fresh_key() -> SigningKey {
    SigningKey::generate(&mut OsRng)
}

fn sk_bytes(sk: &SigningKey) -> Vec<u8> {
    sk.to_bytes().to_vec()
}

fn vk_bytes(sk: &SigningKey) -> Vec<u8> {
    sk.verifying_key().to_bytes().to_vec()
}

fn member_record(owner_id: MemberId, invited_by: MemberId, sk: &SigningKey) -> Member {
    Member {
        owner_member_id: owner_id,
        invited_by,
        member_vk: vk_bytes(sk),
        nickname: "Test User".to_string(),
    }
}

/// A room with an owner-signed configuration and no members.
fn empty_room(owner_sk: &SigningKey, max_recent_messages: usize) -> ChatRoomStateV1 {
    let config = Configuration {
        configuration_version: 1,
        name: "Test Room".to_string(),
        max_recent_messages,
        max_message_size: 100,
        max_members: 200,
    };
    let mut state = ChatRoomStateV1::new();
    state.configuration = AuthorizedConfiguration::new(config, &sk_bytes(owner_sk));
    state
}

fn message_at(owner_id: MemberId, author_id: MemberId, time: u64, content: &str) -> MessageV1 {
    MessageV1 {
        owner_member_id: owner_id,
        author: author_id,
        time,
        content: content.to_string(),
    }
}

#[test]
fn invite_chain_verifies_and_flipped_signature_fails() {
    // owner -> a -> b -> c, every link signed by its inviter
    let owner_sk = fresh_key();
    let owner_vk = vk_bytes(&owner_sk);
    let owner_id = MemberId::new(&owner_vk);

    let a_sk = fresh_key();
    let b_sk = fresh_key();
    let c_sk = fresh_key();
    let a = member_record(owner_id, owner_id, &a_sk);
    let b = member_record(owner_id, a.id(), &b_sk);
    let c = member_record(owner_id, b.id(), &c_sk);

    let auth_a = AuthorizedMember::new(a, &sk_bytes(&owner_sk));
    let auth_b = AuthorizedMember::new(b, &sk_bytes(&a_sk));
    let auth_c = AuthorizedMember::new(c, &sk_bytes(&b_sk));

    let members = Members {
        members: vec![auth_a.clone(), auth_b.clone(), auth_c.clone()],
    };
    assert!(members.verify(&owner_vk).is_ok());

    // flipping any single link's signature makes verify fail with a
    // chain-related error
    for victim in 0..3 {
        let mut corrupted = members.clone();
        corrupted.members[victim].signature[0] ^= 0x01;
        assert_eq!(
            corrupted.verify(&owner_vk),
            Err(RoomError::SignatureInvalid),
            "flipping the signature of member {} must fail verification",
            victim
        );
    }
}

#[test]
fn owner_in_members_fails_verification() {
    let owner_sk = fresh_key();
    let owner_vk = vk_bytes(&owner_sk);
    let owner_id = MemberId::new(&owner_vk);

    let a_sk = fresh_key();
    let a = member_record(owner_id, owner_id, &a_sk);
    let auth_a = AuthorizedMember::new(a, &sk_bytes(&owner_sk));

    // a record carrying the owner's own key
    let owner_record = Member {
        owner_member_id: owner_id,
        invited_by: owner_id,
        member_vk: owner_vk.clone(),
        nickname: "Owner".to_string(),
    };
    let auth_owner = AuthorizedMember::new(owner_record, &sk_bytes(&owner_sk));

    let members = Members {
        members: vec![auth_a, auth_owner],
    };
    assert_eq!(members.verify(&owner_vk), Err(RoomError::OwnerInMembers));
}

#[test]
fn removed_inviter_fails_with_inviter_not_found() {
    // owner O authorizes A directly, A authorizes B; [A, B] verifies, and
    // removing A's record while keeping B fails with InviterNotFound
    let owner_sk = fresh_key();
    let owner_vk = vk_bytes(&owner_sk);
    let owner_id = MemberId::new(&owner_vk);

    let a_sk = fresh_key();
    let b_sk = fresh_key();
    let a = member_record(owner_id, owner_id, &a_sk);
    let b = member_record(owner_id, a.id(), &b_sk);
    let auth_a = AuthorizedMember::new(a.clone(), &sk_bytes(&owner_sk));
    let auth_b = AuthorizedMember::new(b, &sk_bytes(&a_sk));

    let both = Members {
        members: vec![auth_a, auth_b.clone()],
    };
    assert!(both.verify(&owner_vk).is_ok());

    let only_b = Members {
        members: vec![auth_b],
    };
    assert_eq!(only_b.verify(&owner_vk), Err(RoomError::InviterNotFound));
}

#[test]
fn unknown_author_fails_with_author_not_member() {
    let owner_sk = fresh_key();
    let owner_vk = vk_bytes(&owner_sk);
    let owner_id = MemberId::new(&owner_vk);

    let stranger_sk = fresh_key();
    let stranger_id = MemberId::new(&vk_bytes(&stranger_sk));

    let msg = message_at(owner_id, stranger_id, 1000, "hello");
    let auth_msg = AuthorizedMessageV1::new(msg, &sk_bytes(&stranger_sk));
    let log = MessagesV1 {
        messages: vec![auth_msg],
    };
    let members = Members { members: vec![] };
    assert_eq!(log.verify(&members, &owner_vk), Err(RoomError::AuthorNotMember));
}

/// A fully populated, verifying room: owner, one member, one profile
/// record each, one message.
fn populated_room(
    owner_sk: &SigningKey,
    member_sk: &SigningKey,
) -> (ChatRoomParametersV1, ChatRoomStateV1) {
    let owner_vk = vk_bytes(owner_sk);
    let owner_id = MemberId::new(&owner_vk);
    let member = member_record(owner_id, owner_id, member_sk);
    let member_id = member.id();

    let mut state = empty_room(owner_sk, 10);
    state.members = Members {
        members: vec![AuthorizedMember::new(member, &sk_bytes(owner_sk))],
    };
    state.member_info = MemberInfoV1 {
        member_info: vec![AuthorizedMemberInfo::new_with_member_key(
            MemberInfo {
                member_id,
                version: 1,
                preferred_nickname: "Nick".to_string(),
            },
            &sk_bytes(member_sk),
        )],
    };
    state.recent_messages = MessagesV1 {
        messages: vec![AuthorizedMessageV1::new(
            message_at(owner_id, member_id, 1000, "first"),
            &sk_bytes(member_sk),
        )],
    };

    let params = ChatRoomParametersV1 { owner: owner_vk };
    assert!(state.verify(&params).is_ok());
    (params, state)
}

#[test]
fn idempotence_of_self_delta() {
    // apply_delta(current, delta(current, summarize(current))) == current
    let owner_sk = fresh_key();
    let member_sk = fresh_key();
    let (params, state) = populated_room(&owner_sk, &member_sk);

    let summary = state.summarize(&params);
    let delta = state.delta(&params, &summary);
    let mut replay = state.clone();
    assert!(replay.apply_delta(&params, &delta).is_ok());
    assert_eq!(replay, state);
}

#[test]
fn convergence_under_different_arrival_orders() {
    // the same set of message deltas, applied in different orders, yields
    // identical ordered logs
    let owner_sk = fresh_key();
    let member_sk = fresh_key();
    let (params, state) = populated_room(&owner_sk, &member_sk);
    let owner_id = MemberId::new(&params.owner);
    let member_id = MemberId::new(&vk_bytes(&member_sk));

    let m1 = AuthorizedMessageV1::new(
        message_at(owner_id, member_id, 3000, "three"),
        &sk_bytes(&member_sk),
    );
    let m2 = AuthorizedMessageV1::new(
        message_at(owner_id, member_id, 2000, "two"),
        &sk_bytes(&member_sk),
    );

    let d1 = ChatRoomStateV1Delta {
        configuration: None,
        members: None,
        member_info: None,
        recent_messages: Some(vec![m1.clone()]),
    };
    let d2 = ChatRoomStateV1Delta {
        configuration: None,
        members: None,
        member_info: None,
        recent_messages: Some(vec![m2.clone()]),
    };

    let mut replica1 = state.clone();
    assert!(replica1.apply_delta(&params, &d1).is_ok());
    assert!(replica1.apply_delta(&params, &d2).is_ok());

    let mut replica2 = state.clone();
    assert!(replica2.apply_delta(&params, &d2).is_ok());
    assert!(replica2.apply_delta(&params, &d1).is_ok());

    assert_eq!(replica1.recent_messages, replica2.recent_messages);
    // ordered by timestamp
    let times: Vec<u64> = replica1.recent_messages.messages.iter().map(|m| m.message.time).collect();
    assert_eq!(times, vec![1000, 2000, 3000]);
}

#[test]
fn oversized_message_never_survives() {
    // a message whose content exceeds max_message_size never survives
    // apply_delta, even if validly signed
    let owner_sk = fresh_key();
    let member_sk = fresh_key();
    let (params, state) = populated_room(&owner_sk, &member_sk);
    let owner_id = MemberId::new(&params.owner);
    let member_id = MemberId::new(&vk_bytes(&member_sk));

    let oversized = AuthorizedMessageV1::new(
        message_at(owner_id, member_id, 5000, &"x".repeat(200)),
        &sk_bytes(&member_sk),
    );
    assert!(oversized
        .validate(&vk_bytes(&member_sk))
        .is_ok());

    let delta = ChatRoomStateV1Delta {
        configuration: None,
        members: None,
        member_info: None,
        recent_messages: Some(vec![oversized.clone()]),
    };
    let mut replica = state.clone();
    assert!(replica.apply_delta(&params, &delta).is_ok());
    assert!(!replica
        .recent_messages
        .messages
        .iter()
        .any(|m| m.id() == oversized.id()));
}

#[test]
fn retention_drops_oldest_by_timestamp() {
    // maxRecentMessages = 3; four valid messages applied sequentially, one
    // delta each; the oldest is gone, the rest ascend by timestamp
    let owner_sk = fresh_key();
    let owner_vk = vk_bytes(&owner_sk);
    let owner_id = MemberId::new(&owner_vk);
    let member_sk = fresh_key();
    let member = member_record(owner_id, owner_id, &member_sk);
    let member_id = member.id();

    let mut state = empty_room(&owner_sk, 3);
    state.members = Members {
        members: vec![AuthorizedMember::new(member, &sk_bytes(&owner_sk))],
    };
    let params = ChatRoomParametersV1 { owner: owner_vk };
    assert!(state.verify(&params).is_ok());

    let mut ids = Vec::new();
    for (i, time) in [1000u64, 2000, 3000, 4000].iter().enumerate() {
        let msg = AuthorizedMessageV1::new(
            message_at(owner_id, member_id, *time, &format!("message {}", i)),
            &sk_bytes(&member_sk),
        );
        ids.push((*time, msg.id()));
        let delta = ChatRoomStateV1Delta {
            configuration: None,
            members: None,
            member_info: None,
            recent_messages: Some(vec![msg]),
        };
        assert!(state.apply_delta(&params, &delta).is_ok());
    }

    assert_eq!(state.recent_messages.messages.len(), 3);
    let times: Vec<u64> = state.recent_messages.messages.iter().map(|m| m.message.time).collect();
    assert_eq!(times, vec![2000, 3000, 4000]);
    assert!(!state
        .recent_messages
        .messages
        .iter()
        .any(|m| m.id() == ids[0].1));
}

#[test]
fn rejected_merge_rolls_back() {
    // a delta that would break an invariant is rolled back entirely and
    // reported as StateRejected
    let owner_sk = fresh_key();
    let member_sk = fresh_key();
    let (params, state) = populated_room(&owner_sk, &member_sk);
    let owner_id = MemberId::new(&params.owner);

    // a member record with a broken signature
    let rogue_sk = fresh_key();
    let rogue = member_record(owner_id, owner_id, &rogue_sk);
    let mut bad = AuthorizedMember::new(rogue, &sk_bytes(&owner_sk));
    bad.signature[0] ^= 0x01;

    let delta = ChatRoomStateV1Delta {
        configuration: None,
        members: Some(MembersDelta {
            added: vec![bad],
            removed: vec![],
        }),
        member_info: None,
        recent_messages: None,
    };
    let mut replica = state.clone();
    assert_eq!(
        replica.apply_delta(&params, &delta),
        Err(RoomError::StateRejected)
    );
    assert_eq!(replica, state);
}

#[test]
fn merge_between_replicas() {
    // merge() pulls the other replica's news through summarize + delta
    let owner_sk = fresh_key();
    let member_sk = fresh_key();
    let (params, state) = populated_room(&owner_sk, &member_sk);
    let owner_id = MemberId::new(&params.owner);
    let member_id = MemberId::new(&vk_bytes(&member_sk));

    let mut sender = state.clone();
    let msg = AuthorizedMessageV1::new(
        message_at(owner_id, member_id, 7000, "news"),
        &sk_bytes(&member_sk),
    );
    let delta = ChatRoomStateV1Delta {
        configuration: None,
        members: None,
        member_info: None,
        recent_messages: Some(vec![msg.clone()]),
    };
    assert!(sender.apply_delta(&params, &delta).is_ok());

    let mut receiver = state.clone();
    assert!(receiver.merge(&params, &sender).is_ok());
    assert!(receiver
        .recent_messages
        .messages
        .iter()
        .any(|m| m.id() == msg.id()));
    assert_eq!(receiver.recent_messages, sender.recent_messages);
}

#[test]
fn member_eviction_is_deterministic() {
    // over capacity, the leaf with the largest id is evicted, so every
    // replica evicts alike
    let owner_sk = fresh_key();
    let owner_vk = vk_bytes(&owner_sk);
    let owner_id = MemberId::new(&owner_vk);

    let a_sk = fresh_key();
    let b_sk = fresh_key();
    let a = member_record(owner_id, owner_id, &a_sk);
    let b = member_record(owner_id, owner_id, &b_sk);
    let smaller = a.id().min(b.id());

    let empty = Members { members: vec![] };
    let delta = MembersDelta {
        added: vec![
            AuthorizedMember::new(a, &sk_bytes(&owner_sk)),
            AuthorizedMember::new(b, &sk_bytes(&owner_sk)),
        ],
        removed: vec![],
    };
    let after = empty.apply_delta(&delta, 1);
    assert_eq!(after.members.len(), 1);
    assert_eq!(after.members[0].member.id(), smaller);
}

#[test]
fn nickname_update_rules() {
    let member_sk = fresh_key();
    let member_id = MemberId::new(&vk_bytes(&member_sk));
    let current = AuthorizedMemberInfo::new_with_member_key(
        MemberInfo {
            member_id,
            version: 1,
            preferred_nickname: "Old".to_string(),
        },
        &sk_bytes(&member_sk),
    );

    // empty nickname is rejected before any delta is produced
    assert!(AuthorizedMemberInfo::updated_nickname(
        &current,
        "".to_string(),
        &sk_bytes(&member_sk)
    )
    .is_none());

    // someone else's signing key is rejected
    let other_sk = fresh_key();
    assert!(AuthorizedMemberInfo::updated_nickname(
        &current,
        "New".to_string(),
        &sk_bytes(&other_sk)
    )
    .is_none());

    // a valid update bumps the version and self-signs
    let updated = AuthorizedMemberInfo::updated_nickname(
        &current,
        "New".to_string(),
        &sk_bytes(&member_sk),
    )
    .unwrap();
    assert_eq!(updated.member_info.version, 2);
    assert_eq!(updated.member_info.preferred_nickname, "New");
    assert!(updated.verify_signature(&vk_bytes(&member_sk)).is_ok());
}

#[test]
fn configuration_merge_takes_newer_signed_version() {
    let owner_sk = fresh_key();
    let owner_vk = vk_bytes(&owner_sk);
    let mut current = AuthorizedConfiguration::new(
        Configuration {
            configuration_version: 1,
            name: "Old".to_string(),
            max_recent_messages: 10,
            max_message_size: 100,
            max_members: 10,
        },
        &sk_bytes(&owner_sk),
    );

    // stale versions are ignored
    let stale = current.clone();
    assert!(current.apply_delta(&owner_vk, &Some(stale)).is_ok());
    assert_eq!(current.configuration.configuration_version, 1);

    // a newer version with a broken signature is rejected
    let mut forged = AuthorizedConfiguration::new(
        Configuration {
            configuration_version: 2,
            name: "Forged".to_string(),
            max_recent_messages: 10,
            max_message_size: 100,
            max_members: 10,
        },
        &sk_bytes(&owner_sk),
    );
    forged.signature[0] ^= 0x01;
    assert_eq!(
        current.apply_delta(&owner_vk, &Some(forged)),
        Err(RoomError::SignatureInvalid)
    );
    assert_eq!(current.configuration.configuration_version, 1);

    // a newer, correctly signed version wins
    let newer = AuthorizedConfiguration::new(
        Configuration {
            configuration_version: 2,
            name: "New".to_string(),
            max_recent_messages: 20,
            max_message_size: 100,
            max_members: 10,
        },
        &sk_bytes(&owner_sk),
    );
    assert!(current.apply_delta(&owner_vk, &Some(newer)).is_ok());
    assert_eq!(current.configuration.configuration_version, 2);
    assert_eq!(current.configuration.name, "New");
}
