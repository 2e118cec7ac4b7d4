//! Countdown timers: the one transient-state primitive of the simulation.
//!
//! Shoot and dash cooldowns, projectile lifetimes, the enemy spawn cadence
//! and the blink sub-timer are all the same countdown: a duration, and
//! elapsed time accumulated once per tick. A timer finishes on the tick
//! where the accumulated time reaches its duration, and the owning status
//! effect is removed on that same tick, never deferred.

use vstd::prelude::*;

verus! {

/// A one-shot countdown. Elapsed time accumulates up to the duration and
/// then stops, so `elapsed_ms <= duration_ms` always holds.
#[derive(Clone, Copy, Debug, PartialEq, Eq, Structural)]
pub struct CountdownTimer {
    pub elapsed_ms: u64,
    pub duration_ms: u64,
}

impl CountdownTimer {
    /// The timer invariant: accumulated time is capped at the duration.
    pub open spec fn wf(self) -> bool {
        self.elapsed_ms <= self.duration_ms
    }

    /// A finished timer has accumulated its whole duration.
    pub open spec fn spec_finished(self) -> bool {
        self.elapsed_ms >= self.duration_ms
    }

    /// The timer after one tick of `dt_ms` elapsed milliseconds.
    pub open spec fn ticked(self, dt_ms: u64) -> CountdownTimer {
        CountdownTimer {
            elapsed_ms: if self.elapsed_ms + dt_ms <= self.duration_ms {
                (self.elapsed_ms + dt_ms) as u64
            } else {
                self.duration_ms
            },
            duration_ms: self.duration_ms,
        }
    }

    /// A fresh timer that will finish once `duration_ms` has elapsed.
    pub fn new(duration_ms: u64) -> (t: CountdownTimer)
        ensures
            t == (CountdownTimer { elapsed_ms: 0, duration_ms }),
            t.wf(),
            t.spec_finished() <==> duration_ms == 0,
    {
        CountdownTimer { elapsed_ms: 0, duration_ms }
    }

    /// Accumulate `dt_ms` elapsed milliseconds; reports whether the timer
    /// has now finished.
    pub fn tick(&mut self, dt_ms: u64) -> (finished: bool)
        requires
            old(self).wf(),
        ensures
            *final(self) == old(self).ticked(dt_ms),
            final(self).wf(),
            finished == final(self).spec_finished(),
            finished == (old(self).elapsed_ms + dt_ms >= old(self).duration_ms),
    {
        let headroom = self.duration_ms - self.elapsed_ms;
        if dt_ms < headroom {
            self.elapsed_ms = self.elapsed_ms + dt_ms;
            false
        } else {
            self.elapsed_ms = self.duration_ms;
            true
        }
    }

    /// True once the whole duration has elapsed.
    pub fn finished(&self) -> (r: bool)
        ensures
            r == self.spec_finished(),
    {
        self.elapsed_ms >= self.duration_ms
    }

    /// Start the countdown over with the same duration.
    pub fn reset(&mut self)
        ensures
            *final(self) == (CountdownTimer {
                elapsed_ms: 0,
                duration_ms: old(self).duration_ms,
            }),
            final(self).wf(),
    {
        self.elapsed_ms = 0;
    }
}

} // verus!
