use vstd::prelude::*;

verus! {

#[verifier::external_type_specification]
#[verifier::external_body]
pub struct ExInstant(std::time::Instant);

/// `Instant` is `Copy`: its `clone` returns the same instant.
pub assume_specification[ <std::time::Instant as Clone>::clone ](i: &std::time::Instant) -> (r: std::time::Instant)
    ensures
        r == *i,
;

/// Calls `std::time::Instant::now`. The reading depends on the clock, so
/// nothing is stated of it.
#[verifier::external_body]
pub fn now() -> std::time::Instant {
    std::time::Instant::now()
}

/// Calls `std::time::Instant::duration_since` (`later - earlier`, which std
/// documents as saturating at zero). `Instant` and `Duration` are opaque here,
/// so no clause relates the result to its arguments.
#[verifier::external_body]
pub fn duration_since(earlier: std::time::Instant, later: std::time::Instant) -> std::time::Duration {
    later.duration_since(earlier)
}

/// Calls `std::time::Duration::as_nanos`, the whole length in nanoseconds.
/// `Duration` is opaque here, so no clause relates the number to its argument.
#[verifier::external_body]
pub(crate) fn duration_as_nanos(d: std::time::Duration) -> u128 {
    d.as_nanos()
}

} // verus!
