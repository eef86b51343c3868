//! The server's clock, which counts ticks.

use vstd::prelude::*;

verus! {

/// A point in time, in ticks since the server started.
#[derive(Debug, Clone, Copy, PartialEq, Eq, PartialOrd, Ord, Hash, Structural)]
pub struct Tick(pub u64);

/// A span of time, in ticks.
#[derive(Debug, Clone, Copy, PartialEq, Eq, PartialOrd, Ord, Hash, Structural)]
pub struct TickDelta(pub u64);

impl Tick {
    /// The point that lies `delta` after this one.
    pub fn plus(self, delta: TickDelta) -> (later: Tick)
        requires
            self.0 + delta.0 <= u64::MAX,
        ensures
            later.0 == self.0 + delta.0,
    {
        Tick(self.0 + delta.0)
    }

    /// The span from `earlier` to this point, none where `earlier` lies after it.
    pub fn saturating_sub(self, earlier: Tick) -> (delta: TickDelta)
        ensures
            delta.0 == if self.0 >= earlier.0 {
                self.0 - earlier.0
            } else {
                0
            },
    {
        if self.0 >= earlier.0 {
            TickDelta(self.0 - earlier.0)
        } else {
            TickDelta(0)
        }
    }
}

} // verus!
