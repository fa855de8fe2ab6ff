//! Reading the monotonic clock, for the time spent in a search.
use vstd::prelude::*;
use std::time::Instant;

verus! {

/// `std::time::Instant`, a reading of the monotonic clock, held opaquely.
#[verifier::external_type_specification]
#[verifier::external_body]
pub struct ExInstant(Instant);

/// Calls `Instant::now`: the current reading of the monotonic clock.
/// Nothing is claimed of it.
#[verifier::external_body]
pub(crate) fn clock_now() -> Instant {
    Instant::now()
}

/// Calls `Instant::elapsed` on `start`: the nanoseconds passed since `start`
/// was read. The result depends on the time of the call, so nothing is
/// claimed of it.
#[verifier::external_body]
pub(crate) fn nanos_since(start: &Instant) -> u128 {
    start.elapsed().as_nanos()
}

} // verus!
