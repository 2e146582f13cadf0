use ed25519_dalek::SigningKey;
use rand::rngs::OsRng;
use river_core::member::{AuthorizedMember, Member, MemberId, Members};
use river_core::message::{AuthorizedMessageV1, MessageV1, MessagesV1};

fn fresh_key() -> SigningKey {
    SigningKey::generate(&mut OsRng)
}

fn create_test_message(owner_id: MemberId, author_id: MemberId, time: u64) -> MessageV1 {
    MessageV1 {
        owner_member_id: owner_id,
        author: author_id,
        time,
        content: "Test message".to_string(),
    }
}

#[test]
fn test_authorized_message_new_and_validate() {
    let signing_key = fresh_key();
    let verifying_key = signing_key.verifying_key();
    let owner_id = MemberId(0);
    let author_id = MemberId(1);

    let message = create_test_message(owner_id, author_id, 1000);
    let authorized_message = AuthorizedMessageV1::new(message.clone(), &signing_key.to_bytes());

    assert_eq!(authorized_message.message, message);
    assert!(authorized_message.validate(&verifying_key.to_bytes()).is_ok());

    // Test with wrong key
    let wrong_key = fresh_key().verifying_key();
    assert!(authorized_message.validate(&wrong_key.to_bytes()).is_err());
}

#[test]
fn test_message_id() {
    let signing_key = fresh_key();
    let owner_id = MemberId(0);
    let author_id = MemberId(1);

    let message = create_test_message(owner_id, author_id, 1000);
    let authorized_message = AuthorizedMessageV1::new(message, &signing_key.to_bytes());

    let id1 = authorized_message.id();
    let id2 = authorized_message.id();

    assert_eq!(id1, id2);
}

#[test]
fn test_messages_verify() {
    // Generate a new signing key and its corresponding verifying key for the owner
    let owner_signing_key = fresh_key();
    let owner_verifying_key = owner_signing_key.verifying_key();
    let owner_vk_bytes = owner_verifying_key.to_bytes().to_vec();
    let owner_id = MemberId::new(&owner_vk_bytes);

    // Generate a signing key for the author
    let author_signing_key = fresh_key();
    let author_verifying_key = author_signing_key.verifying_key();
    let author_id = MemberId::new(&author_verifying_key.to_bytes());

    // Create a test message and authorize it with the author's signing key
    let message = create_test_message(owner_id, author_id, 1000);
    let authorized_message = AuthorizedMessageV1::new(message, &author_signing_key.to_bytes());

    // Create a Messages struct with the authorized message
    let messages = MessagesV1 {
        messages: vec![authorized_message],
    };

    // Set up a member registry with the author as a member
    let author_member = Member {
        owner_member_id: owner_id,
        invited_by: owner_id,
        member_vk: author_verifying_key.to_bytes().to_vec(),
        nickname: "Author User".to_string(),
    };
    let authorized_author = AuthorizedMember::new(author_member, &owner_signing_key.to_bytes());
    let members = Members {
        members: vec![authorized_author],
    };

    // Verify that a valid message passes verification
    assert!(
        messages.verify(&members, &owner_vk_bytes).is_ok(),
        "Valid messages should pass verification: {:?}",
        messages.verify(&members, &owner_vk_bytes)
    );

    // Test with invalid signature
    let mut invalid_messages = messages.clone();
    invalid_messages.messages[0].signature = vec![0u8; 64]; // Replace with an invalid signature
    assert!(
        invalid_messages.verify(&members, &owner_vk_bytes).is_err(),
        "Messages with invalid signature should fail verification"
    );
}

#[test]
fn test_messages_summarize() {
    let signing_key = fresh_key();
    let owner_id = MemberId(0);
    let author_id = MemberId(1);

    let message1 = create_test_message(owner_id, author_id, 1000);
    let message2 = create_test_message(owner_id, author_id, 2000);

    let authorized_message1 = AuthorizedMessageV1::new(message1, &signing_key.to_bytes());
    let authorized_message2 = AuthorizedMessageV1::new(message2, &signing_key.to_bytes());

    let messages = MessagesV1 {
        messages: vec![authorized_message1.clone(), authorized_message2.clone()],
    };

    let summary = messages.summarize();
    assert_eq!(summary.len(), 2);
    assert_eq!(summary[0], authorized_message1.id());
    assert_eq!(summary[1], authorized_message2.id());
}

#[test]
fn test_messages_delta() {
    let signing_key = fresh_key();
    let owner_id = MemberId(0);
    let author_id = MemberId(1);

    let message1 = create_test_message(owner_id, author_id, 1000);
    let message2 = create_test_message(owner_id, author_id, 2000);
    let message3 = create_test_message(owner_id, author_id, 3000);

    let authorized_message1 = AuthorizedMessageV1::new(message1, &signing_key.to_bytes());
    let authorized_message2 = AuthorizedMessageV1::new(message2, &signing_key.to_bytes());
    let authorized_message3 = AuthorizedMessageV1::new(message3, &signing_key.to_bytes());

    let messages = MessagesV1 {
        messages: vec![
            authorized_message1.clone(),
            authorized_message2.clone(),
            authorized_message3.clone(),
        ],
    };

    let old_summary = vec![authorized_message1.id(), authorized_message2.id()];
    let delta = messages.delta(&old_summary).unwrap();

    assert_eq!(delta.len(), 1);
    assert_eq!(delta[0], authorized_message3);
}

#[test]
fn equal_timestamps_order_by_message_id() {
    // when timestamps collide the total order falls back to the message id,
    // so both arrival orders give the same log
    let owner_signing_key = fresh_key();
    let owner_id = MemberId::new(&owner_signing_key.verifying_key().to_bytes());
    let author_signing_key = fresh_key();
    let author_vk = author_signing_key.verifying_key();
    let author_id = MemberId::new(&author_vk.to_bytes());

    let members = Members {
        members: vec![AuthorizedMember {
            member: Member {
                owner_member_id: owner_id,
                invited_by: owner_id,
                member_vk: author_vk.to_bytes().to_vec(),
                nickname: "Test User".to_string(),
            },
            signature: vec![0u8; 64],
        }],
    };

    let mk = |content: &str| {
        AuthorizedMessageV1::new(
            MessageV1 {
                owner_member_id: owner_id,
                author: author_id,
                time: 5000,
                content: content.to_string(),
            },
            &author_signing_key.to_bytes(),
        )
    };
    let a = mk("one of two");
    let b = mk("two of two");

    let mut log1 = MessagesV1 { messages: vec![] };
    assert!(log1.apply_delta(&members, owner_id, 10, 100, &Some(vec![a.clone()])).is_ok());
    assert!(log1.apply_delta(&members, owner_id, 10, 100, &Some(vec![b.clone()])).is_ok());

    let mut log2 = MessagesV1 { messages: vec![] };
    assert!(log2.apply_delta(&members, owner_id, 10, 100, &Some(vec![b.clone()])).is_ok());
    assert!(log2.apply_delta(&members, owner_id, 10, 100, &Some(vec![a.clone()])).is_ok());

    assert_eq!(log1, log2);
    let ids: Vec<i64> = log1.messages.iter().map(|m| m.id().0).collect();
    let mut sorted_ids = ids.clone();
    sorted_ids.sort();
    assert_eq!(ids, sorted_ids);
}

#[test]
fn test_messages_apply_delta() {
    let owner_signing_key = fresh_key();
    let owner_verifying_key = owner_signing_key.verifying_key();
    let owner_id = MemberId::new(&owner_verifying_key.to_bytes());

    let author_signing_key = fresh_key();
    let author_verifying_key = author_signing_key.verifying_key();
    let author_id = MemberId::new(&author_verifying_key.to_bytes());

    let message1 = create_test_message(owner_id, author_id, 1000);
    let message2 = create_test_message(owner_id, author_id, 2000);
    let message3 = create_test_message(owner_id, author_id, 3000);

    let authorized_message1 = AuthorizedMessageV1::new(message1, &author_signing_key.to_bytes());
    let authorized_message2 = AuthorizedMessageV1::new(message2, &author_signing_key.to_bytes());
    let authorized_message3 = AuthorizedMessageV1::new(message3, &author_signing_key.to_bytes());

    let mut messages = MessagesV1 {
        messages: vec![authorized_message1.clone(), authorized_message2.clone()],
    };

    let max_recent_messages = 3;
    let max_message_size = 100;
    let members = Members {
        members: vec![AuthorizedMember {
            member: Member {
                owner_member_id: owner_id,
                invited_by: owner_id,
                member_vk: author_verifying_key.to_bytes().to_vec(),
                nickname: "Test User".to_string(),
            },
            signature: vec![0u8; 64], // Signature content is irrelevant for apply_delta
        }],
    };

    let delta = Some(vec![authorized_message3.clone()]);
    assert!(messages
        .apply_delta(&members, owner_id, max_recent_messages, max_message_size, &delta)
        .is_ok());

    assert_eq!(
        messages.messages.len(),
        3,
        "Expected 3 messages after applying delta"
    );
    assert_eq!(
        messages.messages[0], authorized_message1,
        "First message should be authorized_message1"
    );
    assert_eq!(
        messages.messages[1], authorized_message2,
        "Second message should be authorized_message2"
    );
    assert_eq!(
        messages.messages[2], authorized_message3,
        "Third message should be authorized_message3"
    );

    // Test max_recent_messages limit
    let message4 = create_test_message(owner_id, author_id, 4000);
    let authorized_message4 = AuthorizedMessageV1::new(message4, &author_signing_key.to_bytes());
    let delta = Some(vec![authorized_message4.clone()]);
    assert!(messages
        .apply_delta(&members, owner_id, max_recent_messages, max_message_size, &delta)
        .is_ok());

    assert_eq!(
        messages.messages.len(),
        3,
        "Expected 3 messages after applying delta with max_recent_messages limit"
    );
    assert_eq!(
        messages.messages[0], authorized_message2,
        "First message should be authorized_message2 after applying max_recent_messages limit"
    );
    assert_eq!(
        messages.messages[1], authorized_message3,
        "Second message should be authorized_message3 after applying max_recent_messages limit"
    );
    assert_eq!(
        messages.messages[2], authorized_message4,
        "Third message should be authorized_message4 after applying max_recent_messages limit"
    );
}
