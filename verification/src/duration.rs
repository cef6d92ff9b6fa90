//! What this library relies on about `std::time::Duration`.
use std::time::Duration;
use vstd::prelude::*;

verus! {

/// The length of `duration` in nanoseconds, as `Duration::as_nanos` reports it.
pub uninterp spec fn nanos_of(duration: Duration) -> u128;

/// `Duration::as_nanos`: the total number of nanoseconds in the duration.
pub assume_specification[ Duration::as_nanos ](duration: &Duration) -> (nanos: u128)
    ensures
        nanos == nanos_of(*duration),
;

/// `Duration::from_nanos`: the duration that lasts the given number of nanoseconds.
pub assume_specification[ Duration::from_nanos ](nanos: u64) -> (duration: Duration)
    ensures
        nanos_of(duration) == nanos,
;

/// `Duration::saturating_sub`: the difference of the two durations, or zero if
/// it would be negative.
pub assume_specification[ Duration::saturating_sub ](duration: Duration, rhs: Duration) -> (rest:
    Duration)
    ensures
        nanos_of(rest) == (if nanos_of(duration) >= nanos_of(rhs) {
            nanos_of(duration) - nanos_of(rhs)
        } else {
            0
        }),
;

} // verus!
