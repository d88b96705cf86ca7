//! The system clock, read in milliseconds since the Unix epoch.
//!
//! Instants in this crate are `u64` counts of milliseconds since the Unix epoch and
//! durations are `u64` counts of milliseconds; every function that reads the clock
//! has a counterpart that takes the current instant as an argument.
use vstd::prelude::*;

verus! {

/// `SystemTime::now()`, as milliseconds since `UNIX_EPOCH` (0 when the clock is set
/// before the epoch). Nothing is stated of the value: it is whatever the clock reads.
#[verifier::external_body]
pub(crate) fn now_millis() -> u64 {
    match std::time::SystemTime::now().duration_since(std::time::UNIX_EPOCH) {
        Ok(d) => d.as_millis() as u64,
        Err(_) => 0,
    }
}

} // verus!
