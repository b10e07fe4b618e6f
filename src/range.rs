//! The selected range over a known duration, and its clamp.

use vstd::prelude::*;

verus! {

/// Start and end of the selection, in hundredths of a second, over a
/// media duration. `to_end` pins the end to the duration on every update.
/// Nothing keeps `start <= end`: only the bounds below are enforced.
#[derive(Clone, Copy, Debug, PartialEq, Eq, Structural)]
pub struct RangeModel {
    pub duration: u64,
    pub start: u64,
    pub end: u64,
    pub to_end: bool,
}

/// A start value after the clamp: below zero it is zero; past the largest
/// `u64` it stays there.
pub open spec fn clamped_start(v: int) -> u64 {
    if v < 0 {
        0
    } else if v > u64::MAX {
        u64::MAX
    } else {
        v as u64
    }
}

/// An end value after the clamp: the duration when pinned to the end,
/// otherwise `v` held within `0 ..= duration`.
pub open spec fn clamped_end(v: int, to_end: bool, duration: u64) -> u64 {
    if to_end {
        duration
    } else if v < 0 {
        0
    } else if v > duration {
        duration
    } else {
        v as u64
    }
}

impl RangeModel {
    pub open spec fn wf(&self) -> bool {
        self.end <= self.duration
    }

    /// The model after an update that proposes `new_start` and `new_end`.
    pub open spec fn updated(self, new_start: int, new_end: int, to_end: bool) -> RangeModel {
        RangeModel {
            duration: self.duration,
            start: clamped_start(new_start),
            end: clamped_end(new_end, to_end, self.duration),
            to_end,
        }
    }

    /// An empty range over no media.
    pub fn new() -> (r: RangeModel)
        ensures
            r == (RangeModel { duration: 0, start: 0, end: 0, to_end: false }),
            r.wf(),
    {
        RangeModel { duration: 0, start: 0, end: 0, to_end: false }
    }

    /// Takes the duration of newly opened media and selects all of it.
    pub fn set_duration(&mut self, d: u64)
        ensures
            *final(self) == (RangeModel { duration: d, start: 0, end: d, to_end: old(self).to_end }),
            final(self).wf(),
    {
        self.duration = d;
        self.start = 0;
        self.end = d;
    }

    /// Proposes new values and clamps them, in this order: a negative value
    /// becomes zero; with `to_end` the end becomes the duration whatever was
    /// proposed; otherwise the end is held at most at the duration.
    pub fn apply_update(&mut self, new_start: i128, new_end: i128, to_end: bool)
        ensures
            *final(self) == old(self).updated(new_start as int, new_end as int, to_end),
            final(self).wf(),
    {
        self.start = if new_start < 0 {
            0
        } else if new_start > u64::MAX as i128 {
            u64::MAX
        } else {
            new_start as u64
        };
        self.end = if to_end {
            self.duration
        } else if new_end < 0 {
            0
        } else if new_end > self.duration as i128 {
            self.duration
        } else {
            new_end as u64
        };
        self.to_end = to_end;
    }

    /// Sets the flag alone: the end moves to the duration at the next update.
    pub fn set_to_end(&mut self, on: bool)
        ensures
            *final(self) == (RangeModel { to_end: on, ..*old(self) }),
    {
        self.to_end = on;
    }
}

/// No update leaves the start below zero or the end past the duration.
pub proof fn lemma_update_within_bounds(r: RangeModel, new_start: int, new_end: int, to_end: bool)
    ensures
        0 <= r.updated(new_start, new_end, to_end).start,
        r.updated(new_start, new_end, to_end).end <= r.duration,
        r.updated(new_start, new_end, to_end).duration == r.duration,
        r.updated(new_start, new_end, to_end).wf(),
{
}

/// With `to_end` set, an update leaves the end at the duration whatever end
/// was proposed.
pub proof fn lemma_to_end_pins_end(r: RangeModel, new_start: int, new_end: int)
    ensures
        r.updated(new_start, new_end, true).end == r.duration,
{
}

} // verus!
