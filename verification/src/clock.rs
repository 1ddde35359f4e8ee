//! Wall-clock access for the run statistics, as trusted wrappers around the
//! standard monotonic clock.

use vstd::prelude::*;

verus! {

#[verifier::external_type_specification]
#[verifier::external_body]
pub struct ExInstant(std::time::Instant);

/// Relies on `Instant::now`: an opaque monotonic timestamp; nothing is
/// assumed about its value.
#[verifier::external_body]
pub fn now() -> (r: std::time::Instant) {
    std::time::Instant::now()
}

/// Relies on `Instant::elapsed`: the time since `start`, converted to whole
/// milliseconds; nothing is assumed about its value.
#[verifier::external_body]
pub fn elapsed_millis(start: &std::time::Instant) -> (r: u64) {
    start.elapsed().as_millis() as u64
}

} // verus!
