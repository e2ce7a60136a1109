//! Moments in time as seconds and nanoseconds relative to the Unix
//! epoch, the parts of a `SystemTime` that the logic reads.

use vstd::prelude::*;

verus! {

pub const NANOS_PER_SEC: u32 = 1_000_000_000;

#[derive(Debug, Clone, Copy, PartialEq, Eq, Structural)]
pub struct TimeStamp {
    /// Whole seconds since the epoch (negative before it).
    pub secs: i64,
    /// Nanoseconds past `secs` (below one second).
    pub nanos: u32,
}

impl TimeStamp {
    pub open spec fn wf(self) -> bool {
        self.nanos < NANOS_PER_SEC
    }

    /// The moment in nanoseconds since the epoch.
    pub open spec fn total_nanos(self) -> int {
        self.secs * 1_000_000_000 + self.nanos
    }

    pub fn new(secs: i64, nanos: u32) -> (r: Self)
        requires
            nanos < NANOS_PER_SEC,
        ensures
            r.wf(),
            r.secs == secs,
            r.nanos == nanos,
    {
        TimeStamp { secs, nanos }
    }
}

} // verus!
