//! Trusted boundary to the cryptographic primitives and encodings the room
//! model depends on: ed25519 signatures, the registry's fast identity hash,
//! and base58 text.
//!
//! Every function marked `external_body` here is believed, not proved; each
//! doc comment names the outside function relied on.  Results that are pure
//! functions of the arguments but have no short mathematical statement are
//! given uninterpreted names (`sig_of`, `base58_of`, ...), and the verified
//! code reasons only through those names and the few facts stated beside
//! them.

use vstd::prelude::*;

use ed25519_dalek::Signer;
use ed25519_dalek::Verifier;

verus! {

/// The verifying (public) key derived from a 32-byte ed25519 signing key.
pub uninterp spec fn vk_of_sk(sk: Seq<u8>) -> Seq<u8>;

/// The ed25519 signature produced by a signing key over a message
/// (deterministic per RFC 8032).
pub uninterp spec fn sig_of(sk: Seq<u8>, msg: Seq<u8>) -> Seq<u8>;

/// Whether an ed25519 signature verifies against a verifying key and message.
pub uninterp spec fn sig_valid(vk: Seq<u8>, msg: Seq<u8>, sig: Seq<u8>) -> bool;

/// Whether 32 bytes are a canonical ed25519 verifying-key encoding.
pub uninterp spec fn vk_parses(vk: Seq<u8>) -> bool;

/// The base58 text of a byte string (Bitcoin alphabet).
pub uninterp spec fn base58_of(bytes: Seq<u8>) -> Seq<char>;

/// The bytes a base58 text decodes to, if it is well formed.
pub uninterp spec fn base58_decoded(s: Seq<char>) -> Option<Seq<u8>>;

/// An `i64` reduced from an unbounded integer by two's-complement wrapping.
pub open spec fn wrap_i64(x: int) -> i64 {
    let m = x % 0x1_0000_0000_0000_0000;
    if m >= 0x8000_0000_0000_0000 {
        (m - 0x1_0000_0000_0000_0000) as i64
    } else {
        m as i64
    }
}

/// The registry's identity hash: a left-to-right fold of
/// `hash = hash * 31 + byte` on wrapping `i64` arithmetic.
pub open spec fn fast_hash_spec(bytes: Seq<u8>) -> i64
    decreases bytes.len(),
{
    if bytes.len() == 0 {
        0i64
    } else {
        wrap_i64(fast_hash_spec(bytes.drop_last()) * 31 + bytes.last())
    }
}

/// Relies on `freenet_scaffold::util::fast_hash`: its source folds the bytes
/// left to right as `hash = hash.wrapping_mul(31).wrapping_add(byte)` over an
/// `i64` starting from zero, which is exactly `fast_hash_spec`.
#[verifier::external_body]
pub(crate) fn fast_hash_bytes(bytes: &[u8]) -> (r: i64)
    ensures
        r == fast_hash_spec(bytes@),
{
    freenet_scaffold::util::fast_hash(bytes).0
}

/// Relies on `ed25519_dalek::SigningKey::{from_bytes, verifying_key}` and
/// `VerifyingKey::to_bytes`: the public key is a deterministic function of
/// the 32 secret-key bytes, and its 32-byte encoding parses back with
/// `VerifyingKey::from_bytes`.
#[verifier::external_body]
pub(crate) fn derive_verifying_key(sk: &[u8]) -> (r: Vec<u8>)
    requires
        sk@.len() == 32,
    ensures
        r@ == vk_of_sk(sk@),
        r@.len() == 32,
        vk_parses(r@),
{
    let mut key_bytes = [0u8; 32];
    key_bytes.copy_from_slice(sk);
    let signing_key = ed25519_dalek::SigningKey::from_bytes(&key_bytes);
    signing_key.verifying_key().to_bytes().to_vec()
}

/// Relies on `ed25519_dalek::Signer::sign` for `SigningKey`: signing is
/// deterministic in the key and message, never fails, yields 64 bytes, and
/// the signature verifies under the corresponding verifying key.
#[verifier::external_body]
pub(crate) fn sign_bytes(sk: &[u8], msg: &[u8]) -> (r: Vec<u8>)
    requires
        sk@.len() == 32,
    ensures
        r@ == sig_of(sk@, msg@),
        r@.len() == 64,
        sig_valid(vk_of_sk(sk@), msg@, r@),
{
    let mut key_bytes = [0u8; 32];
    key_bytes.copy_from_slice(sk);
    let signing_key = ed25519_dalek::SigningKey::from_bytes(&key_bytes);
    signing_key.sign(msg).to_bytes().to_vec()
}

/// Relies on `ed25519_dalek::VerifyingKey::{from_bytes, verify}` and
/// `Signature::from_bytes`: whether a signature verifies is a pure function
/// of key bytes, message and signature bytes; an unparseable key verifies
/// nothing.
#[verifier::external_body]
pub(crate) fn verify_sig_bytes(vk: &[u8], msg: &[u8], sig: &[u8]) -> (r: bool)
    requires
        vk@.len() == 32,
        sig@.len() == 64,
    ensures
        r == (vk_parses(vk@) && sig_valid(vk@, msg@, sig@)),
{
    let mut key_bytes = [0u8; 32];
    key_bytes.copy_from_slice(vk);
    let mut sig_bytes = [0u8; 64];
    sig_bytes.copy_from_slice(sig);
    match ed25519_dalek::VerifyingKey::from_bytes(&key_bytes) {
        Ok(key) => key.verify(msg, &ed25519_dalek::Signature::from_bytes(&sig_bytes)).is_ok(),
        Err(_) => false,
    }
}

/// Relies on `ed25519_dalek::VerifyingKey::from_bytes`: it succeeds exactly
/// on canonical curve-point encodings.
#[verifier::external_body]
pub(crate) fn verifying_key_parses(vk: &[u8]) -> (r: bool)
    requires
        vk@.len() == 32,
    ensures
        r == vk_parses(vk@),
{
    let mut key_bytes = [0u8; 32];
    key_bytes.copy_from_slice(vk);
    ed25519_dalek::VerifyingKey::from_bytes(&key_bytes).is_ok()
}

/// Relies on `bs58::encode`: deterministic base58 text over the Bitcoin
/// alphabet (ASCII), which `bs58::decode` inverts.
#[verifier::external_body]
pub(crate) fn base58_encode(bytes: &[u8]) -> (r: String)
    ensures
        r@ == base58_of(bytes@),
        base58_decoded(r@) == Some(bytes@),
        vstd::utf8::is_ascii_chars(r@),
{
    bs58::encode(bytes).into_string()
}

/// Relies on `bs58::decode`: a pure partial inverse of `bs58::encode` that
/// fails exactly on text outside the base58 alphabet.
#[verifier::external_body]
pub(crate) fn base58_decode(s: &str) -> (r: Option<Vec<u8>>)
    ensures
        r is Some <==> base58_decoded(s@) is Some,
        r matches Some(v) ==> Some(v@) == base58_decoded(s@),
{
    match bs58::decode(s).into_vec() {
        Ok(v) => Some(v),
        Err(_) => None,
    }
}

} // verus!
