//! The pace of the frames.
//!
//! The clock is read outside; every time is a number of nanoseconds on a
//! clock that never runs backwards.

use vstd::prelude::*;

verus! {

/// The number of frames per second that is aimed at.
pub const FPS: u64 = 275;

/// The time from one frame to the next, in nanoseconds.
pub const INTERVAL: u64 = 1_000_000_000 / FPS;

/// When the next frame is due and when the time was last asked.
#[derive(Clone, Copy, Debug, PartialEq, Eq, Structural)]
pub struct Handler {
    pub sleep_until: u64,
    pub delta_counter: u64,
}

/// The time from `earlier` to `later`; none if `later` is the earlier one.
pub open spec fn span(later: u64, earlier: u64) -> u64 {
    if later >= earlier {
        (later - earlier) as u64
    } else {
        0
    }
}

/// `time` and a span after it, or the end of time if that comes first.
pub open spec fn after(time: u64, wait: u64) -> u64 {
    if time + wait > u64::MAX {
        u64::MAX
    } else {
        (time + wait) as u64
    }
}

impl Handler {
    /// Starts pacing at the time `now`: the first frame is due at once.
    pub fn new(now: u64) -> (r: Handler)
        ensures
            r == (Handler { sleep_until: now, delta_counter: now }),
    {
        Handler { sleep_until: now, delta_counter: now }
    }

    /// How long to sleep at the time `now` until the next frame is due.
    pub fn sleep(&self, now: u64) -> (wait: u64)
        ensures
            wait == span(self.sleep_until, now),
    {
        if self.sleep_until >= now {
            self.sleep_until - now
        } else {
            0
        }
    }

    /// Notes that the sleep ended at the time `now`: the next frame is due
    /// one interval later.
    pub fn wake(&mut self, now: u64)
        ensures
            *final(self) == (Handler { sleep_until: after(now, INTERVAL), ..*old(self) }),
    {
        self.sleep_until = if now > u64::MAX - INTERVAL {
            u64::MAX
        } else {
            now + INTERVAL
        };
    }

    /// The time that has passed since the last call, or since the start, and
    /// from now on counts from `now`.
    pub fn delta(&mut self, now: u64) -> (elapsed: u64)
        ensures
            elapsed == span(now, old(self).delta_counter),
            *final(self) == (Handler { delta_counter: now, ..*old(self) }),
    {
        let elapsed: u64 = if now >= self.delta_counter {
            now - self.delta_counter
        } else {
            0
        };
        self.delta_counter = now;
        elapsed
    }

    /// A number of nanoseconds as the fixed-point number of seconds that the
    /// camera and the cubes take: whole microseconds, the rest dropped.
    pub fn seconds(nanos: u64) -> (r: i64)
        ensures
            r == nanos / 1_000,
    {
        (nanos / 1_000) as i64
    }
}

} // verus!
