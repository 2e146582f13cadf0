//! Command surface for invitations, reduced to its decisions: what a
//! command carries and how its inputs are validated.  Argument parsing and
//! terminal output stay outside this crate.

use vstd::prelude::*;

use crate::crypto::{base58_decode, base58_decoded, verifying_key_parses, vk_parses};
use crate::errors::RoomError;

verus! {

/// Invitation commands a user can issue.
#[derive(Debug)]
pub enum InviteCommands {
    /// Create an invitation for a room.
    Create {
        /// Room owner key (base58 encoded).
        room_owner_key: String,
    },
    /// Accept an invitation.
    Accept {
        /// Invitation code.
        invitation_code: String,
    },
}

/// Decode a base58 room owner key into its 32 key bytes; rejects text that
/// is not base58, not 32 bytes long, or not a valid verifying key.
pub fn decode_room_owner_key(room_owner_key: &str) -> (r: Result<Vec<u8>, RoomError>)
    ensures
        r matches Ok(v) ==> base58_decoded(room_owner_key@) == Some(v@) && v@.len() == 32
            && vk_parses(v@),
        r is Err <==> !match base58_decoded(room_owner_key@) {
            Some(b) => b.len() == 32 && vk_parses(b),
            None => false,
        },
        r matches Err(e) ==> e == RoomError::CodecError,
{
    match base58_decode(room_owner_key) {
        None => Err(RoomError::CodecError),
        Some(bytes) => {
            if bytes.len() != 32 {
                return Err(RoomError::CodecError);
            }
            if !verifying_key_parses(bytes.as_slice()) {
                return Err(RoomError::CodecError);
            }
            Ok(bytes)
        },
    }
}

} // verus!
