//! Human-shareable encoding of cryptographic values: a versioned
//! `<version>:<type>:<base58>` text form, decoded by one canonical parser
//! that rejects any non-matching prefix or malformed payload.

use vstd::prelude::*;

use crate::crypto::{
    base58_decode, base58_decoded, base58_encode, base58_of, verifying_key_parses, vk_parses,
};
use crate::errors::RoomError;
use crate::member::copy_bytes;
use vstd::string::*;

use core::str::FromStr;

verus! {

/// A key or signature carried as plain bytes.
#[derive(Clone, Debug, PartialEq)]
pub enum CryptoValue {
    /// An ed25519 verifying key (32 bytes).
    VerifyingKey(Vec<u8>),
    /// An ed25519 signing key (32 bytes).
    SigningKey(Vec<u8>),
    /// An ed25519 signature (64 bytes).
    Signature(Vec<u8>),
}

/// Mathematical value of a `CryptoValue`.
pub ghost enum CryptoValueV {
    VerifyingKey { bytes: Seq<u8> },
    SigningKey { bytes: Seq<u8> },
    Signature { bytes: Seq<u8> },
}

impl View for CryptoValue {
    type V = CryptoValueV;

    open spec fn view(&self) -> CryptoValueV {
        match self {
            CryptoValue::VerifyingKey(b) => CryptoValueV::VerifyingKey { bytes: b@ },
            CryptoValue::SigningKey(b) => CryptoValueV::SigningKey { bytes: b@ },
            CryptoValue::Signature(b) => CryptoValueV::Signature { bytes: b@ },
        }
    }
}

/// A sequence starts with the given prefix.
pub open spec fn has_prefix(sc: Seq<char>, p: Seq<char>) -> bool {
    sc.len() >= p.len() && sc.subrange(0, p.len() as int) == p
}

/// The canonical text of a crypto value.
pub open spec fn encoded_chars(v: CryptoValueV) -> Seq<char> {
    match v {
        CryptoValueV::VerifyingKey { bytes } => "river:v1:vk:"@ + base58_of(bytes),
        CryptoValueV::SigningKey { bytes } => "river:v1:sk:"@ + base58_of(bytes),
        CryptoValueV::Signature { bytes } => "river:v1:sig:"@ + base58_of(bytes),
    }
}

/// What the canonical parser accepts: a known versioned prefix, a base58
/// payload, and the exact byte length of the named kind (verifying keys
/// must also parse as curve points).
pub open spec fn parsed_crypto(sc: Seq<char>) -> Option<CryptoValueV> {
    if has_prefix(sc, "river:v1:vk:"@) {
        match base58_decoded(sc.skip(12)) {
            Some(b) => if b.len() == 32 && vk_parses(b) {
                Some(CryptoValueV::VerifyingKey { bytes: b })
            } else {
                None
            },
            None => None,
        }
    } else if has_prefix(sc, "river:v1:sk:"@) {
        match base58_decoded(sc.skip(12)) {
            Some(b) => if b.len() == 32 {
                Some(CryptoValueV::SigningKey { bytes: b })
            } else {
                None
            },
            None => None,
        }
    } else if has_prefix(sc, "river:v1:sig:"@) {
        match base58_decoded(sc.skip(13)) {
            Some(b) => if b.len() == 64 {
                Some(CryptoValueV::Signature { bytes: b })
            } else {
                None
            },
            None => None,
        }
    } else {
        None
    }
}

/// What the lenient reader accepts: the canonical form, or a raw base58
/// signing key without any prefix.
pub open spec fn parsed_crypto_lenient(sc: Seq<char>) -> Option<CryptoValueV> {
    if has_prefix(sc, "river:v1"@) {
        parsed_crypto(sc)
    } else {
        match base58_decoded(sc) {
            Some(b) => if b.len() == 32 {
                Some(CryptoValueV::SigningKey { bytes: b })
            } else {
                None
            },
            None => None,
        }
    }
}

/// Whether a text starts with the given prefix.
fn str_has_prefix(s: &str, p: &str) -> (r: bool)
    ensures
        r == has_prefix(s@, p@),
{
    let pl = p.unicode_len();
    let sl = s.unicode_len();
    if sl < pl {
        return false;
    }
    let mut i: usize = 0;
    while i < pl
        invariant
            0 <= i <= pl,
            pl == p@.len(),
            sl == s@.len(),
            pl <= sl,
            forall|k: int| 0 <= k < i ==> s@[k] == p@[k],
        decreases pl - i,
    {
        if s.get_char(i) != p.get_char(i) {
            proof {
                assert(s@.subrange(0, pl as int)[i as int] != p@[i as int]);
            }
            return false;
        }
        i = i + 1;
    }
    proof {
        assert(s@.subrange(0, pl as int) =~= p@);
    }
    true
}

impl CryptoValue {
    /// Encode as the canonical `river:v1:<type>:<base58>` text.
    ///
    /// For a well-formed value the canonical parser inverts this encoding
    /// exactly.
    pub fn to_encoded_string(&self) -> (r: String)
        ensures
            r@ == encoded_chars(self@),
            (self@ matches CryptoValueV::VerifyingKey { bytes } && bytes.len() == 32 && vk_parses(
                bytes,
            )) ==> parsed_crypto(r@) == Some(self@),
            (self@ matches CryptoValueV::SigningKey { bytes } && bytes.len() == 32)
                ==> parsed_crypto(r@) == Some(self@),
            (self@ matches CryptoValueV::Signature { bytes } && bytes.len() == 64)
                ==> parsed_crypto(r@) == Some(self@),
    {
        let mut out = String::new();
        match self {
            CryptoValue::VerifyingKey(b) => {
                out.append("river:v1:vk:");
                let b58 = base58_encode(b.as_slice());
                out.append(b58.as_str());
                proof {
                    reveal_strlit("river:v1:vk:");
                    reveal_strlit("river:v1:sk:");
                    reveal_strlit("river:v1:sig:");
                    assert(out@ =~= "river:v1:vk:"@ + base58_of(b@));
                    lemma_prefix_parse(out@, "river:v1:vk:"@, base58_of(b@));
                    lemma_prefix_disagree(out@, "river:v1:sk:"@, 9);
                    lemma_prefix_disagree(out@, "river:v1:sig:"@, 9);
                }
            },
            CryptoValue::SigningKey(b) => {
                out.append("river:v1:sk:");
                let b58 = base58_encode(b.as_slice());
                out.append(b58.as_str());
                proof {
                    reveal_strlit("river:v1:vk:");
                    reveal_strlit("river:v1:sk:");
                    reveal_strlit("river:v1:sig:");
                    assert(out@ =~= "river:v1:sk:"@ + base58_of(b@));
                    lemma_prefix_parse(out@, "river:v1:sk:"@, base58_of(b@));
                    lemma_prefix_disagree(out@, "river:v1:vk:"@, 9);
                    lemma_prefix_disagree(out@, "river:v1:sig:"@, 10);
                }
            },
            CryptoValue::Signature(b) => {
                out.append("river:v1:sig:");
                let b58 = base58_encode(b.as_slice());
                out.append(b58.as_str());
                proof {
                    reveal_strlit("river:v1:vk:");
                    reveal_strlit("river:v1:sk:");
                    reveal_strlit("river:v1:sig:");
                    assert(out@ =~= "river:v1:sig:"@ + base58_of(b@));
                    lemma_prefix_parse(out@, "river:v1:sig:"@, base58_of(b@));
                    lemma_prefix_disagree(out@, "river:v1:vk:"@, 9);
                    lemma_prefix_disagree(out@, "river:v1:sk:"@, 10);
                }
            },
        }
        out
    }

    /// Decode the canonical `river:v1:<type>:<base58>` text.
    pub fn from_encoded_string(s: &str) -> (r: Result<CryptoValue, RoomError>)
        ensures
            r matches Ok(v) ==> parsed_crypto(s@) == Some(v@),
            r is Err ==> parsed_crypto(s@) is None,
            r matches Err(e) ==> e == RoomError::CodecError,
    {
        let sl = s.unicode_len();
        if str_has_prefix(s, "river:v1:vk:") {
            proof {
                reveal_strlit("river:v1:vk:");
                assert(s@.len() >= 12);
            }
            let payload = s.substring_char(12, sl);
            proof {
                assert(payload@ =~= s@.skip(12));
            }
            match base58_decode(payload) {
                Some(b) => {
                    if b.len() == 32 && verifying_key_parses(b.as_slice()) {
                        Ok(CryptoValue::VerifyingKey(b))
                    } else {
                        Err(RoomError::CodecError)
                    }
                },
                None => Err(RoomError::CodecError),
            }
        } else if str_has_prefix(s, "river:v1:sk:") {
            proof {
                reveal_strlit("river:v1:sk:");
                assert(s@.len() >= 12);
            }
            let payload = s.substring_char(12, sl);
            proof {
                assert(payload@ =~= s@.skip(12));
            }
            match base58_decode(payload) {
                Some(b) => {
                    if b.len() == 32 {
                        Ok(CryptoValue::SigningKey(b))
                    } else {
                        Err(RoomError::CodecError)
                    }
                },
                None => Err(RoomError::CodecError),
            }
        } else if str_has_prefix(s, "river:v1:sig:") {
            proof {
                reveal_strlit("river:v1:sig:");
                assert(s@.len() >= 13);
            }
            let payload = s.substring_char(13, sl);
            proof {
                assert(payload@ =~= s@.skip(13));
            }
            match base58_decode(payload) {
                Some(b) => {
                    if b.len() == 64 {
                        Ok(CryptoValue::Signature(b))
                    } else {
                        Err(RoomError::CodecError)
                    }
                },
                None => Err(RoomError::CodecError),
            }
        } else {
            Err(RoomError::CodecError)
        }
    }

    /// Read either the canonical form or a raw base58 signing key.
    pub fn from_string_value(s: &str) -> (r: Result<CryptoValue, RoomError>)
        ensures
            r matches Ok(v) ==> parsed_crypto_lenient(s@) == Some(v@),
            r is Err ==> parsed_crypto_lenient(s@) is None,
            r matches Err(e) ==> e == RoomError::CodecError,
    {
        if str_has_prefix(s, "river:v1") {
            Self::from_encoded_string(s)
        } else {
            match base58_decode(s) {
                Some(b) => {
                    if b.len() == 32 {
                        Ok(CryptoValue::SigningKey(b))
                    } else {
                        Err(RoomError::CodecError)
                    }
                },
                None => Err(RoomError::CodecError),
            }
        }
    }

    /// The raw bytes carried by this value.
    pub fn bytes(&self) -> (r: &Vec<u8>)
        ensures
            r@ == match self@ {
                CryptoValueV::VerifyingKey { bytes } => bytes,
                CryptoValueV::SigningKey { bytes } => bytes,
                CryptoValueV::Signature { bytes } => bytes,
            },
    {
        match self {
            CryptoValue::VerifyingKey(b) => b,
            CryptoValue::SigningKey(b) => b,
            CryptoValue::Signature(b) => b,
        }
    }

    /// A field-for-field copy.
    pub fn duplicate(&self) -> (r: CryptoValue)
        ensures
            r@ == self@,
    {
        match self {
            CryptoValue::VerifyingKey(b) => CryptoValue::VerifyingKey(copy_bytes(b)),
            CryptoValue::SigningKey(b) => CryptoValue::SigningKey(copy_bytes(b)),
            CryptoValue::Signature(b) => CryptoValue::Signature(copy_bytes(b)),
        }
    }
}

/// A concatenation starts with its first part, and what follows is exactly
/// the second part.
proof fn lemma_prefix_parse(sc: Seq<char>, p: Seq<char>, rest: Seq<char>)
    requires
        sc == p + rest,
    ensures
        has_prefix(sc, p),
        sc.skip(p.len() as int) == rest,
{
    assert(sc.subrange(0, p.len() as int) =~= p);
    assert(sc.skip(p.len() as int) =~= rest);
}

/// Two prefixes that disagree at one position cannot both start the same
/// text.
proof fn lemma_prefix_disagree(sc: Seq<char>, p: Seq<char>, at: int)
    requires
        0 <= at < p.len(),
        sc.len() > at,
        sc[at] != p[at],
    ensures
        !has_prefix(sc, p),
{
    if has_prefix(sc, p) {
        assert(sc.subrange(0, p.len() as int)[at] == p[at]);
    }
}

impl FromStr for CryptoValue {
    type Err = RoomError;

    fn from_str(s: &str) -> Result<CryptoValue, RoomError> {
        CryptoValue::from_string_value(s)
    }
}

} // verus!
