use ed25519_dalek::SigningKey;
use rand::rngs::OsRng;
use river_core::member::{AuthorizedMember, Member, MemberId, Members, MembersDelta};

fn fresh_key() -> SigningKey {
    SigningKey::generate(&mut OsRng)
}

fn create_test_member(owner_id: MemberId, invited_by: MemberId) -> (Member, SigningKey) {
    let signing_key = fresh_key();
    let verifying_key = signing_key.verifying_key();
    (
        Member {
            owner_member_id: owner_id,
            invited_by,
            member_vk: verifying_key.to_bytes().to_vec(),
            nickname: "Test User".to_string(),
        },
        signing_key,
    )
}

#[test]
fn test_members_verify() {
    let owner_signing_key = fresh_key();
    let owner_verifying_key = owner_signing_key.verifying_key();
    let owner_vk_bytes = owner_verifying_key.to_bytes().to_vec();
    let owner_id = MemberId::new(&owner_vk_bytes);

    let (member1, member1_sk) = create_test_member(owner_id, owner_id);
    let (member2, _member2_sk) = create_test_member(owner_id, member1.id());

    // each link is signed by its inviter: member1 by the owner, member2 by
    // member1
    let authorized_member1 = AuthorizedMember::new(member1.clone(), &owner_signing_key.to_bytes());
    let authorized_member2 = AuthorizedMember::new(member2.clone(), &member1_sk.to_bytes());

    let members = Members {
        members: vec![authorized_member1.clone(), authorized_member2.clone()],
    };

    println!("Member1 ID: {:?}", member1.id());
    println!("Member2 ID: {:?}", member2.id());
    println!("Owner ID: {:?}", owner_id);

    let result = members.verify(&owner_vk_bytes);
    println!("Verification result: {:?}", result);
    assert!(result.is_ok(), "Verification failed: {:?}", result);

    // Test that including the owner in the members list fails verification
    let owner_member = Member {
        owner_member_id: owner_id,
        invited_by: owner_id,
        member_vk: owner_vk_bytes.clone(),
        nickname: "Test User".to_string(),
    };
    let authorized_owner = AuthorizedMember::new(owner_member, &owner_signing_key.to_bytes());
    let members_with_owner = Members {
        members: vec![authorized_owner, authorized_member1, authorized_member2],
    };
    let result_with_owner = members_with_owner.verify(&owner_vk_bytes);
    println!("Verification result with owner: {:?}", result_with_owner);
    assert!(
        result_with_owner.is_err(),
        "Verification should fail when owner is included: {:?}",
        result_with_owner
    );
}

#[test]
fn test_members_summarize() {
    let owner_id = MemberId(0);
    let (member1, _sk1) = create_test_member(owner_id, owner_id);
    let (member2, _sk2) = create_test_member(owner_id, member1.id());

    let signing_key = fresh_key();

    let authorized_member1 = AuthorizedMember::new(member1.clone(), &signing_key.to_bytes());
    let authorized_member2 = AuthorizedMember::new(member2.clone(), &signing_key.to_bytes());

    let members = Members {
        members: vec![authorized_member1, authorized_member2],
    };

    let summary = members.summarize();
    assert_eq!(summary.len(), 2);
    assert!(summary.contains(&member1.id()));
    assert!(summary.contains(&member2.id()));
}

#[test]
fn test_members_delta() {
    let owner_id = MemberId(0);
    let (member1, _sk1) = create_test_member(owner_id, owner_id);
    let (member2, _sk2) = create_test_member(owner_id, member1.id());
    let (member3, _sk3) = create_test_member(owner_id, member1.id());

    let signing_key = fresh_key();

    let authorized_member1 = AuthorizedMember::new(member1.clone(), &signing_key.to_bytes());
    let authorized_member2 = AuthorizedMember::new(member2.clone(), &signing_key.to_bytes());
    let authorized_member3 = AuthorizedMember::new(member3.clone(), &signing_key.to_bytes());

    let old_members = Members {
        members: vec![authorized_member1.clone(), authorized_member2.clone()],
    };

    let new_members = Members {
        members: vec![authorized_member1.clone(), authorized_member3.clone()],
    };

    let old_summary = old_members.summarize();
    let delta = new_members.delta(&old_summary);

    assert_eq!(delta.added.len(), 1);
    assert_eq!(delta.added[0].member.id(), member3.id());
    assert_eq!(delta.removed.len(), 1);
    assert_eq!(delta.removed[0], member2.id());
}

#[test]
fn test_members_apply_delta() {
    let owner_id = MemberId(0);
    let (member1, _sk1) = create_test_member(owner_id, owner_id);
    let (member2, _sk2) = create_test_member(owner_id, member1.id());
    let (member3, _sk3) = create_test_member(owner_id, member1.id());

    let signing_key = fresh_key();

    let authorized_member1 = AuthorizedMember::new(member1.clone(), &signing_key.to_bytes());
    let authorized_member2 = AuthorizedMember::new(member2.clone(), &signing_key.to_bytes());
    let authorized_member3 = AuthorizedMember::new(member3.clone(), &signing_key.to_bytes());

    let old_members = Members {
        members: vec![authorized_member1.clone(), authorized_member2.clone()],
    };

    let delta = MembersDelta {
        added: vec![authorized_member3.clone()],
        removed: vec![member2.id()],
    };

    let max_members = 3;
    let new_members = old_members.apply_delta(&delta, max_members);

    assert_eq!(new_members.members.len(), 2);
    assert!(new_members.members.iter().any(|m| m.member.id() == member1.id()));
    assert!(new_members.members.iter().any(|m| m.member.id() == member3.id()));
    assert!(!new_members.members.iter().any(|m| m.member.id() == member2.id()));
}

#[test]
fn test_authorized_member_validate() {
    let owner_signing_key = fresh_key();
    let owner_verifying_key = owner_signing_key.verifying_key();
    let owner_id = MemberId::new(&owner_verifying_key.to_bytes());

    let (member1, _sk1) = create_test_member(owner_id, owner_id);
    let (member2, _sk2) = create_test_member(owner_id, member1.id());

    let authorized_member1 = AuthorizedMember::new(member1.clone(), &owner_signing_key.to_bytes());
    let member2_signing_key = fresh_key();
    let authorized_member2 = AuthorizedMember::new(member2.clone(), &member2_signing_key.to_bytes());

    let _members = vec![authorized_member1.clone(), authorized_member2.clone()];

    // Test with invalid signature
    let _invalid_member2 = AuthorizedMember {
        member: member2.clone(),
        signature: vec![0u8; 64],
    };
}

#[test]
fn test_member_id() {
    let owner_id = MemberId(0);
    let (member, _sk) = create_test_member(owner_id, owner_id);
    let member_id = member.id();

    assert_eq!(member_id, MemberId::new(&member.member_vk));
}
