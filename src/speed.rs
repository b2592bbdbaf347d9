//! The tick period and its adjustment from key presses: presses that follow
//! each other quickly move it in coarse steps, isolated ones in fine steps.

use vstd::prelude::*;

verus! {

/// The shortest tick period, in milliseconds.
pub const MIN_PERIOD_MS: u64 = 0;

/// The longest tick period, in milliseconds.
pub const MAX_PERIOD_MS: u64 = 10000;

/// Step for a press that comes more than `REPEAT_WINDOW_MS` after the last.
pub const FINE_STEP_MS: u64 = 10;

/// Step for a press that comes within `REPEAT_WINDOW_MS` of the last.
pub const COARSE_STEP_MS: u64 = 100;

/// Presses closer together than this count as a rapid repeat.
pub const REPEAT_WINDOW_MS: u64 = 500;

/// The step for a press that comes `elapsed` milliseconds after the last.
pub open spec fn step_for(elapsed: int) -> int {
    if elapsed > REPEAT_WINDOW_MS {
        FINE_STEP_MS as int
    } else {
        COARSE_STEP_MS as int
    }
}

/// The period after a press that asks for faster ticks.
pub open spec fn faster_period(period: int, elapsed: int) -> int {
    if period < step_for(elapsed) {
        MIN_PERIOD_MS as int
    } else {
        period - step_for(elapsed)
    }
}

/// The period after a press that asks for slower ticks.
pub open spec fn slower_period(period: int, elapsed: int) -> int {
    if period + step_for(elapsed) > MAX_PERIOD_MS {
        MAX_PERIOD_MS as int
    } else {
        period + step_for(elapsed)
    }
}

/// The tick period and the time of the last key press that changed it, both
/// in milliseconds.
pub struct SpeedControl {
    period_ms: u64,
    last_press_ms: u64,
}

impl SpeedControl {
    pub closed spec fn period_view(&self) -> nat {
        self.period_ms as nat
    }

    pub closed spec fn last_press_view(&self) -> nat {
        self.last_press_ms as nat
    }

    /// A control that starts at `period_ms`, with no press yet (as if one
    /// came at time zero).
    pub fn new(period_ms: u64) -> (r: SpeedControl)
        ensures
            r.period_view() == period_ms,
            r.last_press_view() == 0,
    {
        SpeedControl { period_ms, last_press_ms: 0 }
    }

    /// The step for a press at `now_ms`.
    fn step(&self, now_ms: u64) -> (r: u64)
        requires
            now_ms >= self.last_press_ms,
        ensures
            r == step_for(now_ms - self.last_press_ms),
    {
        if now_ms - self.last_press_ms > REPEAT_WINDOW_MS {
            FINE_STEP_MS
        } else {
            COARSE_STEP_MS
        }
    }

    /// A press at `now_ms` asking for faster ticks: the period shrinks by a
    /// step, but not below `MIN_PERIOD_MS`.
    pub fn faster(&mut self, now_ms: u64)
        requires
            now_ms >= old(self).last_press_view(),
        ensures
            final(self).period_view() == faster_period(
                old(self).period_view() as int,
                now_ms - old(self).last_press_view(),
            ),
            final(self).last_press_view() == now_ms,
    {
        let step = self.step(now_ms);
        self.period_ms = if self.period_ms < step {
            MIN_PERIOD_MS
        } else {
            self.period_ms - step
        };
        self.last_press_ms = now_ms;
    }

    /// A press at `now_ms` asking for slower ticks: the period grows by a
    /// step, but not above `MAX_PERIOD_MS`.
    pub fn slower(&mut self, now_ms: u64)
        requires
            now_ms >= old(self).last_press_view(),
        ensures
            final(self).period_view() == slower_period(
                old(self).period_view() as int,
                now_ms - old(self).last_press_view(),
            ),
            final(self).last_press_view() == now_ms,
    {
        let step = self.step(now_ms);
        self.period_ms = if self.period_ms > MAX_PERIOD_MS - step {
            MAX_PERIOD_MS
        } else {
            self.period_ms + step
        };
        self.last_press_ms = now_ms;
    }

    /// The tick period, in milliseconds.
    pub fn period_ms(&self) -> (r: u64)
        ensures
            r == self.period_view(),
    {
        self.period_ms
    }

    /// When the last press came, in milliseconds.
    pub fn last_press_ms(&self) -> (r: u64)
        ensures
            r == self.last_press_view(),
    {
        self.last_press_ms
    }
}

} // verus!
