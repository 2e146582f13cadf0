use river_core::errors::RoomError;

#[test]
fn it_works() {
    let result = 2 + 2;
    assert_eq!(result, 4);
}

#[test]
fn error_texts_are_stable() {
    assert_eq!(RoomError::SignatureInvalid.as_text(), "signature invalid");
    assert_eq!(RoomError::InviteChainBroken.as_text(), "invite chain broken");
    assert_eq!(RoomError::InviterNotFound.as_text(), "inviter not found");
    assert_eq!(RoomError::OwnerInMembers.as_text(), "owner in members");
    assert_eq!(RoomError::AuthorNotMember.as_text(), "author not a member");
    assert_eq!(RoomError::CodecError.as_text(), "codec error");
    assert_eq!(RoomError::ConnectionError.as_text(), "connection error");
    assert_eq!(RoomError::HandshakeTimeout.as_text(), "handshake timeout");
    assert_eq!(RoomError::CapacityExceeded.as_text(), "capacity exceeded");
    assert_eq!(RoomError::StateRejected.as_text(), "state rejected");
}
