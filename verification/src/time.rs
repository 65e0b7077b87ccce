//! The monotonic clock the dashboard reads. Everything it measures is kept
//! as whole nanoseconds since the dashboard started.

use std::time::{Duration, Instant};
use vstd::prelude::*;

verus! {

/// `std::time::Instant`, carried through unchanged.
#[verifier::external_type_specification]
#[verifier::external_body]
pub struct ExInstant(Instant);

/// Calls `Instant::now`. Nothing is stated of the result: it is the time at
/// the call.
#[verifier::external_body]
pub(crate) fn instant_now() -> Instant {
    Instant::now()
}

/// Calls `Instant::elapsed` on `since`. Nothing is stated of the result: it
/// depends on the time at the call.
#[verifier::external_body]
pub(crate) fn elapsed_since(since: &Instant) -> Duration {
    since.elapsed()
}

/// Calls `Duration::as_nanos`. `Duration` is opaque here, so nothing is
/// stated of the count.
#[verifier::external_body]
pub(crate) fn duration_nanos(span: &Duration) -> u128 {
    span.as_nanos()
}

} // verus!
