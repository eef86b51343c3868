//! Spans of time and points in time, counted in nanoseconds.

use vstd::prelude::*;

verus! {

/// A span of time.
#[derive(Debug, Clone, Copy, PartialEq, Eq, PartialOrd, Ord, Hash, Structural)]
pub struct Duration {
    pub nanos: u128,
}

/// A point in time, as the span since some fixed moment before it.
#[derive(Debug, Clone, Copy, PartialEq, Eq, PartialOrd, Ord, Hash, Structural)]
pub struct Instant {
    pub nanos: u128,
}

impl Duration {
    pub fn zero() -> (d: Duration)
        ensures
            d.nanos == 0,
    {
        Duration { nanos: 0 }
    }

    pub fn from_secs(secs: u64) -> (d: Duration)
        ensures
            d.nanos == secs * 1_000_000_000,
    {
        Duration { nanos: secs as u128 * 1_000_000_000 }
    }

    pub fn from_millis(millis: u64) -> (d: Duration)
        ensures
            d.nanos == millis * 1_000_000,
    {
        Duration { nanos: millis as u128 * 1_000_000 }
    }

    pub fn from_micros(micros: u64) -> (d: Duration)
        ensures
            d.nanos == micros * 1_000,
    {
        Duration { nanos: micros as u128 * 1_000 }
    }

    /// The whole microseconds in the span.
    pub fn as_micros(&self) -> (micros: u128)
        ensures
            micros == self.nanos / 1_000,
    {
        self.nanos / 1_000
    }
}

impl Instant {
    /// The point that lies `by` after this one.
    pub fn plus(&self, by: Duration) -> (later: Instant)
        requires
            self.nanos + by.nanos <= u128::MAX,
        ensures
            later.nanos == self.nanos + by.nanos,
    {
        Instant { nanos: self.nanos + by.nanos }
    }

    /// The span from `earlier` to this point, zero where `earlier` lies after it.
    pub fn duration_since(&self, earlier: Instant) -> (d: Duration)
        ensures
            d.nanos == if self.nanos >= earlier.nanos { self.nanos - earlier.nanos } else { 0 },
    {
        if self.nanos >= earlier.nanos {
            Duration { nanos: (self.nanos - earlier.nanos) }
        } else {
            Duration { nanos: 0 }
        }
    }
}

} // verus!
