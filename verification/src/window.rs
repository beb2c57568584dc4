//! The time window a run is restricted to, and the admission decision taken
//! once per message: publish times before the window are skipped singly, and
//! the first publish time past the window stops the whole run, the stream
//! being taken as globally time-ordered.

use vstd::prelude::*;

verus! {

/// A closed time window `[start, stop]` in nanoseconds since the epoch.
#[derive(Debug, Clone, Copy, PartialEq, Eq, Structural)]
pub struct Window {
    pub start: u64,
    pub stop: u64,
}

/// Where a publish time stands relative to a window.
#[derive(Debug, Clone, Copy, PartialEq, Eq, Structural)]
pub enum Gate {
    /// Before the window: skip this message and go on.
    Before,
    /// Inside the window: process this message.
    Inside,
    /// Past the window: stop the whole run, remaining files included.
    After,
}

/// The admission decision for a publish time.
pub open spec fn gate(w: Window, t: u64) -> Gate {
    if t < w.start {
        Gate::Before
    } else if t > w.stop {
        Gate::After
    } else {
        Gate::Inside
    }
}

impl Window {
    /// The whole time axis: nothing is skipped and nothing stops the run.
    pub fn full() -> (r: Window)
        ensures
            r == (Window { start: 0u64, stop: u64::MAX }),
    {
        Window { start: 0, stop: u64::MAX }
    }

    /// Decides the admission of one publish time.
    pub fn classify(&self, t: u64) -> (r: Gate)
        ensures
            r == gate(*self, t),
    {
        if t < self.start {
            Gate::Before
        } else if t > self.stop {
            Gate::After
        } else {
            Gate::Inside
        }
    }
}

} // verus!
