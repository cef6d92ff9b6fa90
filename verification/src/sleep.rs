//! Waiting for a deadline more precisely than a thread's sleep does.
use crate::duration::nanos_of;
use std::time::Duration;
use vstd::prelude::*;

verus! {

/// A wait longer than this sleeps; a shorter one yields.
pub const SLEEP_ABOVE_NANOS: u64 = 2_000_000;

/// How long before the deadline a sleep ends.
pub const WAKE_BEFORE_NANOS: u64 = 1_000_000;

/// What to do until a deadline.
#[derive(Debug, Clone, Copy)]
pub enum Wait {
    /// The deadline is reached.
    Over,
    /// Sleep for so long, then look again.
    Sleep(Duration),
    /// Let others run, then look again.
    Yield,
}

/// What to do when `remaining` is left until the deadline: sleep until one
/// millisecond before it, and yield during the last two milliseconds.
pub fn precise_sleep(remaining: Duration) -> (wait: Wait)
    ensures
        match wait {
            Wait::Over => nanos_of(remaining) == 0,
            Wait::Sleep(duration) => {
                &&& nanos_of(remaining) > SLEEP_ABOVE_NANOS
                &&& nanos_of(duration) == nanos_of(remaining) - WAKE_BEFORE_NANOS
            },
            Wait::Yield => 0 < nanos_of(remaining) <= SLEEP_ABOVE_NANOS,
        },
{
    let nanos: u128 = remaining.as_nanos();
    if nanos == 0 {
        Wait::Over
    } else if nanos > SLEEP_ABOVE_NANOS as u128 {
        Wait::Sleep(remaining.saturating_sub(Duration::from_nanos(WAKE_BEFORE_NANOS)))
    } else {
        Wait::Yield
    }
}

} // verus!
