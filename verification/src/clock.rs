//! The system clock, read as whole seconds since the UNIX epoch.

use vstd::prelude::*;

verus! {

/// Reads `std::time::SystemTime::now()` and converts it to whole seconds
/// since `UNIX_EPOCH` (`duration_since` and `Duration::as_secs`).
///
/// Trusted, with nothing stated of the value: it is the time of the call.
/// `None` when the clock reads a time before the epoch (the error of
/// `duration_since`).
#[verifier::external_body]
pub(crate) fn unix_time_now() -> (secs: Option<u64>) {
    match std::time::SystemTime::now().duration_since(std::time::UNIX_EPOCH) {
        Ok(elapsed) => Some(elapsed.as_secs()),
        Err(_) => None,
    }
}

} // verus!
