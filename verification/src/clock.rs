//! The wall clock.
use vstd::prelude::*;

verus! {

/// `std::time::SystemTime::now` in milliseconds since the Unix epoch; 0 when
/// the clock stands before the epoch. Nothing is claimed of the time itself.
#[verifier::external_body]
pub fn now_millis() -> u64 {
    std::time::SystemTime::now().duration_since(std::time::UNIX_EPOCH).map_or(0, |d| d.as_millis() as u64)
}

} // verus!
