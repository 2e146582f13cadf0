//! Room-wide configuration: name and retention limits, authorized by the
//! owner's signature and replaced only by strictly newer versions.

use vstd::prelude::*;

use crate::crypto::{sig_of, sig_valid, sign_bytes, verify_sig_bytes, vk_of_sk, vk_parses};
use crate::errors::RoomError;
use crate::member::{copy_bytes, copy_string, u64_le_bytes, u64_le_seq};
use vstd::string::*;

verus! {

/// Room-wide settings.
#[derive(Clone, Debug, PartialEq)]
pub struct Configuration {
    /// Monotonically increasing version; higher versions win on merge.
    pub configuration_version: u32,
    /// Room name.
    pub name: String,
    /// Retention bound of the message log.
    pub max_recent_messages: usize,
    /// Largest accepted message content, in bytes.
    pub max_message_size: usize,
    /// Largest accepted member registry.
    pub max_members: usize,
}

/// Mathematical value of a `Configuration`.
pub ghost struct ConfigurationV {
    pub configuration_version: u32,
    pub name: Seq<char>,
    pub max_recent_messages: usize,
    pub max_message_size: usize,
    pub max_members: usize,
}

impl View for Configuration {
    type V = ConfigurationV;

    open spec fn view(&self) -> ConfigurationV {
        ConfigurationV {
            configuration_version: self.configuration_version,
            name: self.name@,
            max_recent_messages: self.max_recent_messages,
            max_message_size: self.max_message_size,
            max_members: self.max_members,
        }
    }
}

impl Configuration {
    /// A field-for-field copy.
    pub fn duplicate(&self) -> (r: Configuration)
        ensures
            r@ == self@,
    {
        Configuration {
            configuration_version: self.configuration_version,
            name: copy_string(&self.name),
            max_recent_messages: self.max_recent_messages,
            max_message_size: self.max_message_size,
            max_members: self.max_members,
        }
    }
}

impl Default for Configuration {
    /// The configuration a fresh room starts from.
    fn default() -> (r: Configuration)
        ensures
            r@.configuration_version == 1,
            r@.name.len() == 0,
            r@.max_recent_messages == 100,
            r@.max_message_size == 1000,
            r@.max_members == 200,
    {
        Configuration {
            configuration_version: 1,
            name: String::new(),
            max_recent_messages: 100,
            max_message_size: 1000,
            max_members: 200,
        }
    }
}

/// A configuration with the owner's signature over it.
#[derive(Clone, Debug, PartialEq)]
pub struct AuthorizedConfiguration {
    pub configuration: Configuration,
    /// ed25519 signature (64 bytes) by the room owner's signing key.
    pub signature: Vec<u8>,
}

/// Mathematical value of an `AuthorizedConfiguration`.
pub ghost struct AuthorizedConfigurationV {
    pub configuration: ConfigurationV,
    pub signature: Seq<u8>,
}

impl View for AuthorizedConfiguration {
    type V = AuthorizedConfigurationV;

    open spec fn view(&self) -> AuthorizedConfigurationV {
        AuthorizedConfigurationV { configuration: self.configuration@, signature: self.signature@ }
    }
}

/// The byte string the owner signs to authorize a configuration.
pub open spec fn config_msg(c: ConfigurationV) -> Seq<u8> {
    u64_le_seq(c.configuration_version as u64) + u64_le_seq(c.max_recent_messages as u64)
        + u64_le_seq(c.max_message_size as u64) + u64_le_seq(c.max_members as u64)
        + vstd::utf8::encode_utf8(c.name)
}

/// The exact byte string that is signed to authorize a configuration.
pub fn config_signing_bytes(c: &Configuration) -> (r: Vec<u8>)
    ensures
        r@ == config_msg(c@),
{
    let mut out = u64_le_bytes(c.configuration_version as u64);
    let mut part = u64_le_bytes(c.max_recent_messages as u64);
    out.append(&mut part);
    let mut part2 = u64_le_bytes(c.max_message_size as u64);
    out.append(&mut part2);
    let mut part3 = u64_le_bytes(c.max_members as u64);
    out.append(&mut part3);
    let mut name_part = c.name.as_str().as_bytes_vec();
    out.append(&mut name_part);
    assert(out@ =~= config_msg(c@));
    out
}

/// Whether an authorized configuration's signature verifies against the
/// owner's key.
pub open spec fn config_sig_ok(c: AuthorizedConfigurationV, owner_vk: Seq<u8>) -> bool {
    &&& owner_vk.len() == 32
    &&& vk_parses(owner_vk)
    &&& c.signature.len() == 64
    &&& sig_valid(owner_vk, config_msg(c.configuration), c.signature)
}

/// The configuration after merging an incoming one: a strictly newer,
/// correctly signed configuration wins; anything else leaves the current
/// one.
pub open spec fn config_applied(
    c: AuthorizedConfigurationV,
    owner_vk: Seq<u8>,
    d: Option<AuthorizedConfigurationV>,
) -> AuthorizedConfigurationV {
    match d {
        None => c,
        Some(dd) => {
            if dd.configuration.configuration_version > c.configuration.configuration_version
                && config_sig_ok(dd, owner_vk) {
                dd
            } else {
                c
            }
        },
    }
}

/// An incoming configuration is rejected (rather than merely stale) when it
/// is newer but its owner signature fails.
pub open spec fn config_delta_rejected(
    c: AuthorizedConfigurationV,
    owner_vk: Seq<u8>,
    d: Option<AuthorizedConfigurationV>,
) -> bool {
    match d {
        None => false,
        Some(dd) => dd.configuration.configuration_version
            > c.configuration.configuration_version && !config_sig_ok(dd, owner_vk),
    }
}

/// The view of an optional configuration delta.
pub open spec fn config_delta_view(d: Option<AuthorizedConfiguration>) -> Option<
    AuthorizedConfigurationV,
> {
    match d {
        Some(c) => Some(c@),
        None => None,
    }
}

impl AuthorizedConfiguration {
    /// Authorize a configuration with the owner's signing key.
    pub fn new(configuration: Configuration, owner_signing_key: &[u8]) -> (r:
        AuthorizedConfiguration)
        requires
            owner_signing_key@.len() == 32,
        ensures
            r@.configuration == configuration@,
            r@.signature == sig_of(owner_signing_key@, config_msg(configuration@)),
            r@.signature.len() == 64,
            sig_valid(
                vk_of_sk(owner_signing_key@),
                config_msg(configuration@),
                r@.signature,
            ),
    {
        let payload = config_signing_bytes(&configuration);
        let signature = sign_bytes(owner_signing_key, payload.as_slice());
        AuthorizedConfiguration { configuration, signature }
    }

    /// Check the owner's signature on this configuration.
    pub fn verify(&self, owner_vk: &[u8]) -> (r: Result<(), RoomError>)
        ensures
            r is Ok <==> config_sig_ok(self@, owner_vk@),
            r matches Err(e) ==> e == RoomError::SignatureInvalid,
    {
        if owner_vk.len() != 32 || self.signature.len() != 64 {
            return Err(RoomError::SignatureInvalid);
        }
        let payload = config_signing_bytes(&self.configuration);
        if verify_sig_bytes(owner_vk, payload.as_slice(), self.signature.as_slice()) {
            Ok(())
        } else {
            Err(RoomError::SignatureInvalid)
        }
    }

    /// A field-for-field copy.
    pub fn duplicate(&self) -> (r: AuthorizedConfiguration)
        ensures
            r@ == self@,
    {
        AuthorizedConfiguration {
            configuration: self.configuration.duplicate(),
            signature: copy_bytes(&self.signature),
        }
    }

    /// Summary of this sub-state: the configuration version.
    pub fn summarize(&self) -> (r: u32)
        ensures
            r == self@.configuration.configuration_version,
    {
        self.configuration.configuration_version
    }

    /// This configuration, if it is newer than the summarized one.
    pub fn delta(&self, old_version: u32) -> (r: Option<AuthorizedConfiguration>)
        ensures
            self@.configuration.configuration_version > old_version ==> (r matches Some(c) && c@
                == self@),
            self@.configuration.configuration_version <= old_version ==> r is None,
    {
        if self.configuration.configuration_version > old_version {
            Some(self.duplicate())
        } else {
            None
        }
    }

    /// Take an incoming configuration if it is strictly newer and carries a
    /// valid owner signature; reject a newer one whose signature fails;
    /// ignore stale ones.  The version never decreases.
    pub fn apply_delta(&mut self, owner_vk: &[u8], delta: &Option<AuthorizedConfiguration>) -> (r:
        Result<(), RoomError>)
        ensures
            match *delta {
                None => r is Ok && *final(self) == *old(self),
                Some(d) => {
                    if d@.configuration.configuration_version
                        <= old(self)@.configuration.configuration_version {
                        r is Ok && *final(self) == *old(self)
                    } else if config_sig_ok(d@, owner_vk@) {
                        r is Ok && final(self)@ == d@
                    } else {
                        r == Result::<(), RoomError>::Err(RoomError::SignatureInvalid)
                            && *final(self) == *old(self)
                    }
                },
            },
            final(self)@.configuration.configuration_version
                >= old(self)@.configuration.configuration_version,
            final(self)@ == config_applied(old(self)@, owner_vk@, config_delta_view(*delta)),
            r is Ok <==> !config_delta_rejected(old(self)@, owner_vk@, config_delta_view(*delta)),
    {
        match delta {
            None => Ok(()),
            Some(d) => {
                if d.configuration.configuration_version
                    <= self.configuration.configuration_version {
                    Ok(())
                } else {
                    match d.verify(owner_vk) {
                        Ok(()) => {
                            *self = d.duplicate();
                            Ok(())
                        },
                        Err(e) => Err(e),
                    }
                }
            },
        }
    }
}

} // verus!
