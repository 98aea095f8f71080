//! Error types of the library.

use vstd::prelude::*;

verus! {

/// Why a base32 string could not be decoded.
#[derive(Debug, Clone, Copy, PartialEq, Eq, Structural)]
pub enum ParseError {
    /// The string holds this character, which is neither a letter nor one of
    /// the digits `2` to `7`.
    InvalidBase32Char(char),
}

/// Why a keyed hash could not be computed.
#[derive(Debug, Clone, Copy, PartialEq, Eq, Structural)]
pub enum CryptoError {
    /// The hash primitive refused the length of the key.
    InvalidKeyLength,
}

} // verus!
