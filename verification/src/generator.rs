//! The generator of time-based codes.

use vstd::prelude::*;
use crate::clock::now_millis;
use crate::error::CryptoError;
use crate::hotp::{hotp, hotp_code};
use crate::mac::Encryption;
use crate::timestep::{
    counter_at,
    elapsed_millis,
    lemma_counter_constant_within_step,
    remaining_at,
    remaining_millis,
    step_counter,
};

verus! {

/// What a generator is made of, as plain values.
pub struct TotpModel {
    /// The shared secret: the key of the hash.
    pub secret: Seq<u8>,
    /// The length of a time step, in milliseconds.
    pub time_step: int,
    /// The time at which step 0 starts, in milliseconds since the start of
    /// 1970.
    pub epoch_start: int,
    /// The hash function.
    pub encryption: Encryption,
}

impl TotpModel {
    /// The counter at the time `now`.
    pub open spec fn counter_at(self, now: int) -> i64 {
        step_counter(now, self.epoch_start, self.time_step)
    }

    /// The code at the time `now`. It depends on the time through the
    /// counter alone.
    pub open spec fn code_at(self, now: int) -> u32 {
        hotp(self.encryption, self.secret, self.counter_at(now))
    }

    /// How long the code of the time `now` still lasts, in milliseconds.
    pub open spec fn left_time_at(self, now: int) -> int {
        remaining_millis(now, self.epoch_start, self.time_step)
    }
}

/// A generator of codes from a shared secret and the time.
///
/// The length of a step and the start of the epoch are in milliseconds. A
/// step is never of length zero.
pub struct TOTP<'a> {
    secret: &'a [u8],
    time_step: u64,
    epoch_start: i64,
    encryption: Encryption,
}

impl<'a> View for TOTP<'a> {
    type V = TotpModel;

    closed spec fn view(&self) -> TotpModel {
        TotpModel {
            secret: self.secret@,
            time_step: self.time_step as int,
            epoch_start: self.epoch_start as int,
            encryption: self.encryption,
        }
    }
}

impl<'a> TOTP<'a> {
    #[verifier::type_invariant]
    spec fn positive_step(&self) -> bool {
        self.time_step > 0
    }

    /// A generator for `secret` with steps of `time_step` milliseconds, of
    /// which step 0 starts `epoch_start` milliseconds after the start of
    /// 1970.
    pub fn new(secret: &'a [u8], time_step: u64, epoch_start: i64, encryption: Encryption) -> (totp:
        Self)
        requires
            time_step > 0,
        ensures
            totp@ == (TotpModel {
                secret: secret@,
                time_step: time_step as int,
                epoch_start: epoch_start as int,
                encryption,
            }),
    {
        TOTP { secret, time_step, epoch_start, encryption }
    }

    /// A generator for `secret` with the usual settings: steps of 30
    /// seconds, counted from the start of 1970, and SHA-1.
    pub fn default(secret: &'a [u8]) -> (totp: Self)
        ensures
            totp@ == (TotpModel {
                secret: secret@,
                time_step: 30_000,
                epoch_start: 0,
                encryption: Encryption::SHA1,
            }),
    {
        TOTP { secret, time_step: 30_000, epoch_start: 0, encryption: Encryption::SHA1 }
    }

    /// The code at the time `now`, in milliseconds since the start of 1970:
    /// a number of 31 bits. Its last six decimal digits are what is usually
    /// shown.
    pub fn code_at(&self, now: i64) -> (r: Result<u32, CryptoError>)
        ensures
            r == Ok::<u32, CryptoError>(self@.code_at(now as int)),
            r matches Ok(code) ==> code < 0x8000_0000,
    {
        proof {
            use_type_invariant(self);
        }
        let counter = counter_at(now, self.epoch_start, self.time_step);
        hotp_code(self.encryption, self.secret, counter)
    }

    /// How long the code of the time `now` still lasts, in milliseconds:
    /// never nothing, and never more than a step.
    pub fn left_time_at(&self, now: i64) -> (left: u64)
        ensures
            left == self@.left_time_at(now as int),
            0 < left <= self@.time_step,
    {
        proof {
            use_type_invariant(self);
        }
        remaining_at(now, self.epoch_start, self.time_step)
    }

    /// The code at the time that the system clock shows.
    pub fn get_code(&self) -> (r: Result<u32, CryptoError>)
        ensures
            exists|now: i64| r == Ok::<u32, CryptoError>(#[trigger] self@.code_at(now as int)),
            r matches Ok(code) ==> code < 0x8000_0000,
    {
        let now = now_millis();
        self.code_at(now)
    }

    /// How long the code of the time that the system clock shows still
    /// lasts, in milliseconds.
    pub fn get_left_time(&self) -> (left: u64)
        ensures
            exists|now: i64| left == #[trigger] self@.left_time_at(now as int),
            0 < left <= self@.time_step,
    {
        let now = now_millis();
        self.left_time_at(now)
    }
}

/// Two times with the same counter have the same code.
pub proof fn lemma_code_follows_counter(totp: TotpModel, now1: int, now2: int)
    requires
        totp.counter_at(now1) == totp.counter_at(now2),
    ensures
        totp.code_at(now1) == totp.code_at(now2),
{
}

/// A code holds until its step ends: whatever the secret and the settings,
/// the code of `now1` is the code of every later time that the rest of the
/// step of `now1` still covers.
pub proof fn lemma_code_constant_within_step(totp: TotpModel, now1: int, now2: int)
    requires
        totp.time_step > 0,
        now1 <= now2,
        now2 - now1 < totp.time_step - elapsed_millis(now1, totp.epoch_start) % totp.time_step,
    ensures
        totp.code_at(now1) == totp.code_at(now2),
{
    lemma_counter_constant_within_step(now1, now2, totp.epoch_start, totp.time_step);
}

} // verus!
