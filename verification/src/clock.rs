use vstd::prelude::*;

verus! {

#[verifier::external_type_specification]
#[verifier::external_body]
pub struct ExInstant(std::time::Instant);

/// Relies on std::time::Instant::now: an opaque reading of the monotonic
/// clock. Nothing is assumed of the result.
#[verifier::external_body]
pub fn now_instant() -> std::time::Instant {
    std::time::Instant::now()
}

/// Relies on std::time::Instant::elapsed: the time since `start`, as an
/// opaque duration. Nothing is assumed of the result.
#[verifier::external_body]
pub fn instant_elapsed(start: &std::time::Instant) -> std::time::Duration {
    start.elapsed()
}

/// Relies on std::time::Duration::as_millis: the duration in whole
/// milliseconds. Nothing is assumed of the result.
#[verifier::external_body]
pub fn duration_millis(d: &std::time::Duration) -> u128 {
    d.as_millis()
}

} // verus!
