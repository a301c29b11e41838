//! Frame pacing state, over integer nanoseconds.
//!
//! The clock records the two most recent frame times and the total
//! lifetime. The surrounding loop measures each frame's duration, hands it
//! in, and pauses for whatever [`Clock::sleep`] returns; reading the time
//! and sleeping stay outside this crate.

use vstd::prelude::*;

verus! {

/// The frame-time target, in nanoseconds.
pub const FRAME_NANOS: u64 = 30000000;

/// Keeps a consistent framerate.
pub struct Clock {
    /// Duration of the most recent frame, in nanoseconds.
    pub past_delta: u64,
    /// Duration of the frame before it, in nanoseconds.
    pub prior_delta: u64,
    /// Total time since the clock was created, in nanoseconds.
    pub lifetime: u64,
    /// Number of frames recorded.
    pub cycles: u64,
}

impl Clock {
    /// A fresh clock: no frames recorded yet.
    pub fn new() -> (c: Clock)
        ensures
            c.past_delta == 0,
            c.prior_delta == 0,
            c.lifetime == 0,
            c.cycles == 0,
    {
        Clock { past_delta: 0, prior_delta: 0, lifetime: 0, cycles: 0 }
    }

    /// Record one frame of `delta` nanoseconds.
    pub fn update(&mut self, delta: u64)
        requires
            old(self).cycles < u64::MAX,
            old(self).lifetime + delta <= u64::MAX,
        ensures
            final(self).cycles == old(self).cycles + 1,
            final(self).lifetime == old(self).lifetime + delta,
            final(self).past_delta == delta,
            final(self).prior_delta == old(self).past_delta,
    {
        self.cycles = self.cycles + 1;
        self.lifetime = self.lifetime + delta;
        self.prior_delta = self.past_delta;
        self.past_delta = delta;
    }

    /// Whether this frame is one of the periodic ones the loop reports on.
    pub fn should_log(&self) -> (r: bool)
        ensures
            r == (self.cycles % 15 == 0),
    {
        self.cycles % 15 == 0
    }

    /// How long to pause after this frame: the target frame time minus the
    /// average of the two most recent frame times, or nothing when frames
    /// already run at or below the target cadence.
    pub open spec fn spec_slowdown(&self) -> int {
        let avg = (self.past_delta + self.prior_delta) / 2;
        if avg < FRAME_NANOS {
            FRAME_NANOS - avg
        } else {
            0
        }
    }

    /// The pause, in nanoseconds, that holds the frame cadence.
    pub fn frame_slowdown(&self) -> (r: u64)
        ensures
            r == self.spec_slowdown(),
    {
        let avg128 = ((self.past_delta as u128) + (self.prior_delta as u128)) / 2;
        if avg128 < FRAME_NANOS as u128 {
            FRAME_NANOS - (avg128 as u64)
        } else {
            0
        }
    }

    /// Close one frame: record its duration, then report the pause that
    /// holds the cadence.
    pub fn sleep(&mut self, delta: u64) -> (pause: u64)
        requires
            old(self).cycles < u64::MAX,
            old(self).lifetime + delta <= u64::MAX,
        ensures
            final(self).cycles == old(self).cycles + 1,
            final(self).lifetime == old(self).lifetime + delta,
            final(self).past_delta == delta,
            final(self).prior_delta == old(self).past_delta,
            pause == final(self).spec_slowdown(),
    {
        self.update(delta);
        self.frame_slowdown()
    }
}

} // verus!
