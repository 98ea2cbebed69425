//! A running average of the time that a frame takes.

use vstd::prelude::*;

verus! {

/// Keeps eight times the average frame time, in milliseconds.
#[derive(Debug, Clone, Copy, PartialEq, Eq, Structural)]
pub struct FpsCalculator {
    pub total_ms: u64,
}

/// The total after a frame of `frame` milliseconds: an eighth of the total
/// gives way to the frame. The total stops at the largest number it can hold.
pub open spec fn ticked(total_ms: u64, frame: u64) -> u64 {
    let next = total_ms - total_ms / 8 + frame;
    if next > u64::MAX {
        u64::MAX
    } else {
        next as u64
    }
}

/// Frames in a second at the average frame time that `total_ms` stands for.
pub open spec fn frames_per_second(total_ms: u64) -> u64 {
    if total_ms == 0 {
        0
    } else {
        (8000int / total_ms as int) as u64
    }
}

impl FpsCalculator {
    pub fn new() -> (f: Self)
        ensures
            f.total_ms == 0,
    {
        Self { total_ms: 0 }
    }

    /// Counts a frame that took `frame` milliseconds.
    pub fn tick(&mut self, frame: u64)
        ensures
            final(self).total_ms == ticked(old(self).total_ms, frame),
    {
        let rest = self.total_ms - self.total_ms / 8;
        self.total_ms = if frame > u64::MAX - rest {
            u64::MAX
        } else {
            rest + frame
        };
    }

    pub fn fps(&self) -> (n: u64)
        ensures
            n == frames_per_second(self.total_ms),
    {
        if self.total_ms == 0 {
            0
        } else {
            8000 / self.total_ms
        }
    }
}

} // verus!
