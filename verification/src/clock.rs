//! The wall clock.
use vstd::prelude::*;

verus! {

/// Calls `std::time::SystemTime::now` and returns the milliseconds since the
/// Unix epoch (0 before it), truncated to 64 bits; nothing is claimed of the
/// value, which depends on the clock.
#[verifier::external_body]
pub(crate) fn now_millis() -> (r: u64) {
    std::time::SystemTime::now().duration_since(std::time::UNIX_EPOCH).unwrap_or_default().as_millis() as u64
}

} // verus!
