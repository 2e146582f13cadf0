//! Core state model of a cryptographically authorized, eventually consistent
//! chat room replicated among untrusting peers.
//!
//! The room state is composed of four sub-states (configuration, members,
//! member info, recent messages), each exposing the same surface:
//! `verify` / `summarize` / `delta` / `apply_delta`.  Membership is granted
//! through invite chains: every member record carries a signature by its
//! inviter, and every chain must terminate at the room owner.  The network
//! synchronizer is modelled as a pure protocol state machine; the transport
//! itself stays outside this crate.

pub mod cli;
pub mod codec;
pub mod configuration;
pub mod crypto;
pub mod errors;
pub mod invites;
pub mod member;
pub mod member_info;
pub mod message;
pub mod room_key;
pub mod room_state;
pub mod seqs;
pub mod sync;
