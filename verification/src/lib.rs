//! Time-based one-time passwords.
//!
//! A shared secret, written in base32, and the time give a code that changes
//! with every time step:
//!
//! - [`base32_to_secret`] decodes the secret;
//! - [`TOTP`] holds the secret with the length of a step, the start of the
//!   epoch and the hash function, and gives the code of a time and how long
//!   that code still lasts.
//!
//! The code of a time is found in three moves. The time since the start of
//! the epoch is divided into steps, which gives a counter ([`timestep`]). The
//! counter is hashed under the secret ([`mac`]). The tag is cut down to a
//! number of 31 bits ([`hotp`]).
//!
//! Times are whole milliseconds throughout. The functions are verified
//! against contracts that say what they return; the hashing and the reading
//! of the clock are done by other crates and are trusted.

pub mod base32;
mod clock;
pub mod error;
pub mod generator;
pub mod hotp;
pub mod mac;
pub mod timestep;

pub use crate::base32::base32_to_secret;
pub use crate::generator::TOTP;
pub use crate::mac::Encryption;
