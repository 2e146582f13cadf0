//! Error taxonomy shared by state verification, merging, the codec and the
//! network synchronizer.

use vstd::prelude::*;

verus! {

/// Why a state, a record, an encoded value or a protocol step was rejected.
#[derive(Clone, Copy, PartialEq, Eq, Structural, Debug)]
pub enum RoomError {
    /// A signature does not verify against the expected key.
    SignatureInvalid,
    /// An invite chain does not terminate at the room owner.
    InviteChainBroken,
    /// A member's inviter is neither the owner nor present in the registry.
    InviterNotFound,
    /// The owner's member id appears in the member registry.
    OwnerInMembers,
    /// A message's author is neither the owner nor a current member.
    AuthorNotMember,
    /// An encoded value is malformed.
    CodecError,
    /// The transport reported a failure.
    ConnectionError,
    /// The connection handshake did not complete in time.
    HandshakeTimeout,
    /// A capacity limit would be exceeded.
    CapacityExceeded,
    /// A merged aggregate failed post-merge verification and was rolled back.
    StateRejected,
}

impl RoomError {
    /// A short stable text for logs and user-facing surfaces.
    pub fn as_text(&self) -> (r: &'static str)
        ensures
            r@.len() > 0,
    {
        let s: &'static str = match self {
            RoomError::SignatureInvalid => "signature invalid",
            RoomError::InviteChainBroken => "invite chain broken",
            RoomError::InviterNotFound => "inviter not found",
            RoomError::OwnerInMembers => "owner in members",
            RoomError::AuthorNotMember => "author not a member",
            RoomError::CodecError => "codec error",
            RoomError::ConnectionError => "connection error",
            RoomError::HandshakeTimeout => "handshake timeout",
            RoomError::CapacityExceeded => "capacity exceeded",
            RoomError::StateRejected => "state rejected",
        };
        proof {
            reveal_strlit("signature invalid");
            reveal_strlit("invite chain broken");
            reveal_strlit("inviter not found");
            reveal_strlit("owner in members");
            reveal_strlit("author not a member");
            reveal_strlit("codec error");
            reveal_strlit("connection error");
            reveal_strlit("handshake timeout");
            reveal_strlit("capacity exceeded");
            reveal_strlit("state rejected");
        }
        s
    }
}

} // verus!
