//! The system clock.
use vstd::prelude::*;

verus! {

/// The current time in whole seconds since the Unix epoch, or why the clock gives
/// none: `std::time::SystemTime::now` and its distance from `UNIX_EPOCH`. Nothing
/// is promised of the time.
#[verifier::external_body]
pub(crate) fn unix_now() -> (r: Result<u64, String>) {
    let elapsed = std::time::SystemTime::now().duration_since(std::time::SystemTime::UNIX_EPOCH);
    elapsed.map(|d| d.as_secs()).map_err(|e| e.to_string())
}

} // verus!
