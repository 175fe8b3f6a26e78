//! The wall clock.

use vstd::prelude::*;

verus! {

/// The current time in whole seconds since the Unix epoch, as chrono's
/// `Utc::now()` reads it and `DateTime::timestamp` counts it.
///
/// Nothing is claimed of the value: two readings may differ in either
/// direction. chrono gives up where the system clock stands before the
/// epoch or beyond the dates that it can hold.
#[verifier::external_body]
pub(crate) fn unix_now() -> (now: i64) {
    chrono::Utc::now().timestamp()
}

} // verus!
