//! Keyed hashes: HMAC over SHA-1 and over MD5.
//!
//! The hashing itself is done by the `hmac`, `sha1` and `md5` crates. What
//! they compute is not spelled out here: each tag has a name, and the rest of
//! the library is proved for whatever tags those names stand for.

use vstd::prelude::*;
use hmac::{Hmac, Mac, NewMac};
use md5::Md5;
use sha1::Sha1;
use crate::error::CryptoError;

verus! {

/// The error with which a keyed hash of the `hmac` crate refuses a key.
#[verifier::external_type_specification]
#[verifier::external_body]
pub struct ExInvalidKeyLength(hmac::crypto_mac::InvalidKeyLength);

/// The HMAC-SHA1 tag of `message` under `key`.
pub uninterp spec fn hmac_sha1_tag(key: Seq<u8>, message: Seq<u8>) -> Seq<u8>;

/// The HMAC-MD5 tag of `message` under `key`.
pub uninterp spec fn hmac_md5_tag(key: Seq<u8>, message: Seq<u8>) -> Seq<u8>;

/// Computes an HMAC-SHA1 tag with `Hmac::<Sha1>::new_varkey`, `update` and
/// `finalize` of the `hmac` crate.
///
/// Trusted, not proved: the call succeeds for a key of any length (the crate
/// pads a short key and hashes a long one, and returns `Ok` in every case),
/// it returns the tag named [`hmac_sha1_tag`], and that tag has the 20 bytes
/// of a SHA-1 output.
#[verifier::external_body]
fn hmac_sha1(key: &[u8], message: &[u8]) -> (r: Result<
    Vec<u8>,
    hmac::crypto_mac::InvalidKeyLength,
>)
    ensures
        r is Ok,
        r matches Ok(tag) ==> tag@ == hmac_sha1_tag(key@, message@) && tag@.len() == 20,
{
    let mut mac = Hmac::<Sha1>::new_varkey(key)?;
    mac.update(message);
    Ok(mac.finalize().into_bytes().to_vec())
}

/// Computes an HMAC-MD5 tag with `Hmac::<Md5>::new_varkey`, `update` and
/// `finalize` of the `hmac` crate.
///
/// Trusted, not proved: the call succeeds for a key of any length, it
/// returns the tag named [`hmac_md5_tag`], and that tag has the 16 bytes of
/// an MD5 output.
#[verifier::external_body]
fn hmac_md5(key: &[u8], message: &[u8]) -> (r: Result<
    Vec<u8>,
    hmac::crypto_mac::InvalidKeyLength,
>)
    ensures
        r is Ok,
        r matches Ok(tag) ==> tag@ == hmac_md5_tag(key@, message@) && tag@.len() == 16,
{
    let mut mac = Hmac::<Md5>::new_varkey(key)?;
    mac.update(message);
    Ok(mac.finalize().into_bytes().to_vec())
}

/// The hash function under the keyed hash.
#[derive(Debug, Clone, Copy, PartialEq, Eq, Structural)]
pub enum Encryption {
    /// SHA-1, with tags of 20 bytes.
    SHA1,
    /// MD5, with tags of 16 bytes.
    MD5,
}

impl Encryption {
    /// The length of a tag, in bytes.
    pub open spec fn tag_len(self) -> nat {
        match self {
            Encryption::SHA1 => 20,
            Encryption::MD5 => 16,
        }
    }

    /// The tag of `message` under `key`.
    pub open spec fn tag(self, key: Seq<u8>, message: Seq<u8>) -> Seq<u8> {
        match self {
            Encryption::SHA1 => hmac_sha1_tag(key, message),
            Encryption::MD5 => hmac_md5_tag(key, message),
        }
    }

    /// Computes the tag of `message` under `key`. A key of any length is
    /// taken, the empty one too.
    pub fn authenticate(&self, key: &[u8], message: &[u8]) -> (r: Result<Vec<u8>, CryptoError>)
        ensures
            r matches Ok(tag) && tag@ == self.tag(key@, message@) && tag@.len() == self.tag_len(),
    {
        let computed = match self {
            Encryption::SHA1 => hmac_sha1(key, message),
            Encryption::MD5 => hmac_md5(key, message),
        };
        match computed {
            Ok(tag) => Ok(tag),
            Err(_) => Err(CryptoError::InvalidKeyLength),
        }
    }
}

} // verus!
