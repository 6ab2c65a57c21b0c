//! How Loadstone checks the images it boots.

use vstd::prelude::*;

verus! {

/// How image integrity (and possibly authenticity) is enforced.
#[derive(Clone, Copy, Debug, PartialEq, Eq, Structural)]
pub enum SecurityMode {
    /// A cyclic redundancy check: only helps against unintentional
    /// corruption, and protects against no attack.
    Crc,
    /// P256 ECDSA signature verification: integrity and authenticity, but
    /// not secrecy (images are not encrypted).
    P256ECDSA,
}

impl Default for SecurityMode {
    fn default() -> (r: Self)
        ensures
            r == SecurityMode::P256ECDSA,
    {
        SecurityMode::P256ECDSA
    }
}

/// How Loadstone guarantees image security.
#[derive(Clone, Debug, PartialEq, Eq)]
pub struct SecurityConfiguration {
    pub security_mode: SecurityMode,
    /// The verifying public key, in PEM format.
    pub verifying_key_raw: String,
}

impl Default for SecurityConfiguration {
    fn default() -> (r: Self)
        ensures
            r.security_mode == SecurityMode::P256ECDSA,
            r.verifying_key_raw@.len() == 0,
    {
        SecurityConfiguration { security_mode: SecurityMode::P256ECDSA, verifying_key_raw: String::new() }
    }
}

/// The SEC1 (uncompressed point) encoding of the P256 public key that a
/// PEM text holds, as `p256` decodes and encodes it; `None` when the text is
/// not a PEM encoded P256 public key.
pub uninterp spec fn sec1_of_pem(pem: Seq<char>) -> Option<Seq<u8>>;

/// Parses a PEM public key with `p256::ecdsa::VerifyingKey::from_str` (which
/// calls `DecodePublicKey::from_public_key_pem`) and encodes it with
/// `to_encoded_point(false)`; a parse error gives `None`. The contract only
/// names the result.
#[verifier::external_body]
fn public_key_sec1(pem: &str) -> (r: Option<Vec<u8>>)
    ensures
        match (r, sec1_of_pem(pem@)) {
            (Some(v), Some(s)) => v@ == s,
            (None, None) => true,
            _ => false,
        },
{
    match <p256::ecdsa::VerifyingKey as core::str::FromStr>::from_str(pem) {
        Ok(key) => Some(key.to_encoded_point(false).as_bytes().to_vec()),
        Err(_) => None,
    }
}

impl SecurityConfiguration {
    /// The bytes of the key file a build verifies signatures with: the
    /// configured public key, SEC1 encoded. Only a configuration that
    /// verifies signatures, with a valid PEM public key, has one.
    pub fn key_file(&self) -> (r: Vec<u8>)
        requires
            self.security_mode == SecurityMode::P256ECDSA,
            sec1_of_pem(self.verifying_key_raw@) is Some,
        ensures
            r@ == sec1_of_pem(self.verifying_key_raw@)->0,
    {
        match public_key_sec1(self.verifying_key_raw.as_str()) {
            Some(bytes) => bytes,
            None => {
                assert(false);
                Vec::new()
            },
        }
    }

    /// The key file, when the configuration verifies signatures with a valid
    /// PEM public key; `None` otherwise.
    pub fn checked_key_file(&self) -> (r: Option<Vec<u8>>)
        ensures
            r is Some <==> self.security_mode == SecurityMode::P256ECDSA && sec1_of_pem(self.verifying_key_raw@) is Some,
            r matches Some(v) ==> v@ == sec1_of_pem(self.verifying_key_raw@)->0,
    {
        if self.security_mode != SecurityMode::P256ECDSA {
            return None;
        }
        match public_key_sec1(self.verifying_key_raw.as_str()) {
            Some(_) => Some(self.key_file()),
            None => None,
        }
    }
}

} // verus!
