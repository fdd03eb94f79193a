//! The dev screenshot's frame clock: capture the window once, after a warm-up of a given
//! number of frames.

use vstd::prelude::*;

verus! {

/// Frames seen, the frame to capture at, and whether the capture was asked for.
#[derive(Clone, Copy, Debug, PartialEq, Eq, Structural)]
pub struct ShotClock {
    pub frames: u32,
    pub at: u32,
    pub requested: bool,
}

/// Warm-up frames before the capture when none is configured.
pub const DEFAULT_SHOT_FRAME: u32 = 45;

/// A frame log line every this many frames.
pub const FRAME_LOG_EVERY: u32 = 30;

/// One frame counted: the clock after it, and whether to ask for the screenshot now (a
/// capture is wanted, the frame is `at`, and it was not asked for yet).
pub open spec fn tick_spec(c: ShotClock, capture: bool) -> (ShotClock, bool) {
    let frames = (c.frames + 1) as u32;
    let now = capture && frames == c.at && !c.requested;
    (ShotClock { frames, requested: c.requested || now, ..c }, now)
}

impl ShotClock {
    /// A clock that captures at frame `at` (counting from 1).
    pub fn new(at: u32) -> (r: Self)
        ensures
            r == (ShotClock { frames: 0, at, requested: false }),
    {
        ShotClock { frames: 0, at, requested: false }
    }

    /// Count one frame. `capture` says whether a capture is wanted at all (a path was given);
    /// the answer says whether to ask for the screenshot now (exactly once, at frame `at`).
    pub fn tick(&mut self, capture: bool) -> (r: bool)
        requires
            old(self).frames < u32::MAX,
        ensures
            (*final(self), r) == tick_spec(*old(self), capture),
    {
        self.frames = self.frames + 1;
        let now = capture && self.frames == self.at && !self.requested;
        if now {
            self.requested = true;
        }
        now
    }

    /// This frame gets a frame-log line.
    pub fn log_due(&self) -> (r: bool)
        ensures
            r == (self.frames % FRAME_LOG_EVERY == 0),
    {
        self.frames % FRAME_LOG_EVERY == 0
    }
}

/// The screenshot is asked for at most once: the frame that asks marks the clock, and a
/// marked clock never asks again, whatever the later frames bring.
pub proof fn law_capture_at_most_once(c: ShotClock, capture: bool)
    ensures
        tick_spec(c, capture).1 ==> tick_spec(c, capture).0.requested,
        c.requested ==> !tick_spec(c, capture).1 && tick_spec(c, capture).0.requested,
{
}

} // verus!
