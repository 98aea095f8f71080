//! The wall clock.

use vstd::prelude::*;

verus! {

/// Reads the system clock with `chrono::Utc::now` and gives the time as the
/// milliseconds since the start of 1970, as `DateTime::timestamp_millis`
/// counts them.
///
/// Trusted, not proved. Nothing is claimed of the time that comes back: it is
/// whatever the machine's clock says, and two calls need not agree. `chrono`
/// panics where the clock is set to a time before 1970.
#[verifier::external_body]
pub(crate) fn now_millis() -> (now: i64) {
    chrono::Utc::now().timestamp_millis()
}

} // verus!
