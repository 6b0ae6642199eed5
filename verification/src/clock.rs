use std::time::{Duration, Instant};
use vstd::prelude::*;

verus! {

/// A point in time of the monotonic clock of std.
#[verifier::external_type_specification]
#[verifier::external_body]
pub struct ExInstant(Instant);

/// `Instant::now`: the present moment. Nothing is assumed of it.
#[verifier::external_body]
pub(crate) fn now() -> Instant {
    Instant::now()
}

/// `Instant::elapsed`: the time that has passed since `start`. Nothing is
/// assumed of it.
#[verifier::external_body]
pub(crate) fn elapsed(start: &Instant) -> Duration {
    start.elapsed()
}

/// `Duration::as_nanos`: the whole duration in nanoseconds. Nothing is
/// assumed of the number.
#[verifier::external_body]
pub(crate) fn as_nanos(duration: &Duration) -> u128 {
    duration.as_nanos()
}

/// The nanoseconds that have passed since `start`.
pub fn nanos_since(start: &Instant) -> u128 {
    let passed = elapsed(start);
    as_nanos(&passed)
}

} // verus!
