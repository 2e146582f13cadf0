use ed25519_dalek::SigningKey;
use rand::rngs::OsRng;
use river_core::member::{AuthorizedMember, Member, MemberId, Members};
use river_core::member_info::{AuthorizedMemberInfo, MemberInfo, MemberInfoV1};
use river_core::message::{AuthorizedMessageV1, MessageV1, MessagesV1};

fn fresh_key() -> SigningKey {
    SigningKey::generate(&mut OsRng)
}

fn sk_bytes(sk: &SigningKey) -> Vec<u8> {
    sk.to_bytes().to_vec()
}

// Add a member to the room: a membership record signed by the owner and a
// first profile record signed by the member.
fn add_member(
    members: &mut Members,
    member_info: &mut MemberInfoV1,
    owner_key: &SigningKey,
    member_id: &MemberId,
    member_key: &SigningKey,
    invited_by: MemberId,
) {
    let member_vk = member_key.verifying_key();
    let owner_member_id = MemberId::new(&owner_key.verifying_key().to_bytes());

    members.members.push(AuthorizedMember::new(
        Member {
            owner_member_id,
            invited_by,
            member_vk: member_vk.to_bytes().to_vec(),
            nickname: "Example Member".to_string(),
        },
        &sk_bytes(owner_key),
    ));

    member_info.member_info.push(AuthorizedMemberInfo::new_with_member_key(
        MemberInfo {
            member_id: *member_id,
            version: 0,
            preferred_nickname: "Example Nickname".to_string(),
        },
        &sk_bytes(member_key),
    ));
}

fn add_example_messages(
    messages: &mut MessagesV1,
    owner_id: &MemberId,
    owner_key: &SigningKey,
    member_keys: &[(MemberId, SigningKey)],
) {
    let base_time: u64 = 1_633_012_200_000;
    let mut current_time = base_time;

    // two messages per member, then one from the owner
    for (member_id, signing_key) in member_keys.iter() {
        for i in 0..2 {
            messages.messages.push(AuthorizedMessageV1::new(
                MessageV1 {
                    owner_member_id: *owner_id,
                    author: *member_id,
                    time: current_time,
                    content: format!("example message {}", i),
                },
                &sk_bytes(signing_key),
            ));
            current_time += 60_000;
        }
    }

    messages.messages.push(AuthorizedMessageV1::new(
        MessageV1 {
            owner_member_id: *owner_id,
            author: *owner_id,
            time: current_time,
            content: "a closing word from the owner".to_string(),
        },
        &sk_bytes(owner_key),
    ));
}

#[test]
fn test_add_member() {
    let owner_key = fresh_key();
    let owner_id = MemberId::new(&owner_key.verifying_key().to_bytes());

    let member_key = fresh_key();
    let member_id = MemberId::new(&member_key.verifying_key().to_bytes());

    let mut members = Members { members: vec![] };
    let mut member_info = MemberInfoV1 { member_info: vec![] };

    add_member(
        &mut members,
        &mut member_info,
        &owner_key,
        &member_id,
        &member_key,
        owner_id,
    );

    assert_eq!(members.members.len(), 1);
    assert_eq!(member_info.member_info.len(), 1);

    // Verify that the member was added correctly
    let added_member = &members.members[0].member;
    assert_eq!(added_member.id(), member_id);
}

#[test]
fn test_add_example_messages() {
    let owner_key = fresh_key();
    let owner_id = MemberId::new(&owner_key.verifying_key().to_bytes());

    let member_key = fresh_key();
    let member_id = MemberId::new(&member_key.verifying_key().to_bytes());

    let mut members = Members { members: vec![] };
    let mut member_info = MemberInfoV1 { member_info: vec![] };
    add_member(
        &mut members,
        &mut member_info,
        &owner_key,
        &member_id,
        &member_key,
        owner_id,
    );

    let mut messages = MessagesV1 { messages: vec![] };
    let member_keys = vec![(member_id, member_key)];
    add_example_messages(&mut messages, &owner_id, &owner_key, &member_keys);

    // Verify that messages are added
    assert_eq!(messages.messages.len(), 3);

    // Verify that messages are from valid members or the owner
    for authorized_message in messages.messages.iter() {
        let message_author = authorized_message.message.author;
        let author_is_owner = message_author == owner_id;
        let author_in_members = members
            .members
            .iter()
            .any(|m| m.member.id() == message_author);
        assert!(
            author_is_owner || author_in_members,
            "Message author {:?} is neither the owner nor in the members list",
            message_author
        );
    }
}
