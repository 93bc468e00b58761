//! The wall clock.

use vstd::prelude::*;

verus! {

/// Calls `std::time::SystemTime::now` and gives the time since the Unix
/// epoch in milliseconds, or zero if the clock stands before the epoch.
/// Nothing is claimed of the result: it is different at every call.
#[verifier::external_body]
pub(crate) fn current_time_ms() -> u128 {
    match std::time::SystemTime::now().duration_since(std::time::UNIX_EPOCH) {
        Ok(since) => since.as_millis(),
        Err(_) => 0,
    }
}

/// `time` as a `u64`, or the largest `u64` if it does not fit.
pub fn saturated(time: u128) -> (r: u64)
    ensures
        time <= u64::MAX ==> r == time,
        time > u64::MAX ==> r == u64::MAX,
{
    if time > u64::MAX as u128 {
        u64::MAX
    } else {
        time as u64
    }
}

} // verus!
