//! The one place the wall clock is read. Every function that needs the time
//! takes it as a plain argument, so all time-dependent logic is deterministic;
//! only this wrapper touches the clock.
use vstd::prelude::*;

verus! {

/// Relies on std::time::SystemTime::now: seconds of the wall clock since the
/// Unix epoch, or zero for a clock set before the epoch. Nothing is assumed
/// of the value.
#[verifier::external_body]
pub(crate) fn now_unix_seconds() -> u64 {
    match std::time::SystemTime::now().duration_since(std::time::UNIX_EPOCH) {
        Ok(d) => d.as_secs(),
        Err(_) => 0,
    }
}

} // verus!
