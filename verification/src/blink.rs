//! Blink/flicker status: the visual half of an invulnerability window.
//!
//! While invulnerable, an entity toggles between fully visible and fully
//! hidden on a repeating sub-timer. The window of `duration` milliseconds
//! is cut into `frequency * 2` equal periods and the visibility flips once
//! per period, so the toggle count is always even and the entity is back to
//! fully visible when the status expires; on the expiring toggle the state
//! is forced visible as well, never deferred to a later tick.

use crate::timer::CountdownTimer;
use vstd::prelude::*;

verus! {

/// The countdown-driven blink attached to an invulnerable entity.
#[derive(Clone, Copy, Debug, PartialEq, Eq, Structural)]
pub struct BlinkState {
    /// Time left until the next visibility toggle.
    pub blink_timer: CountdownTimer,
    /// Toggles still owed; the status expires when this reaches zero.
    pub blinks_left: u32,
    /// The visibility/opacity state handed to the renderer.
    pub visible: bool,
}

impl BlinkState {
    /// The blink invariant: the timer is well formed, and the entity is
    /// visible exactly when an even number of toggles remains. A fresh
    /// blink starts visible with an even count, and each toggle flips
    /// both sides, so expiry (zero toggles left) always lands on visible.
    pub open spec fn wf(self) -> bool {
        &&& self.blink_timer.wf()
        &&& self.visible == (self.blinks_left % 2 == 0)
    }

    /// The state after one tick of `dt_ms`: at most one toggle per tick,
    /// exactly when the sub-timer finishes; the final toggle forces the
    /// entity visible.
    pub open spec fn stepped(self, dt_ms: u64) -> BlinkState {
        if self.blink_timer.ticked(dt_ms).spec_finished() && self.blinks_left > 0 {
            let left = (self.blinks_left - 1) as u32;
            BlinkState {
                blink_timer: CountdownTimer {
                    elapsed_ms: 0,
                    duration_ms: self.blink_timer.duration_ms,
                },
                blinks_left: left,
                visible: if left == 0 {
                    true
                } else {
                    !self.visible
                },
            }
        } else {
            BlinkState { blink_timer: self.blink_timer.ticked(dt_ms), ..self }
        }
    }

    /// The state after a whole sequence of ticks.
    pub open spec fn stepped_all(self, dts: Seq<u64>) -> BlinkState
        decreases dts.len(),
    {
        if dts.len() == 0 {
            self
        } else {
            self.stepped(dts[0]).stepped_all(dts.drop_first())
        }
    }

    /// A fresh blink over `duration_ms`, toggling `frequency * 2` times,
    /// once every `duration_ms / (frequency * 2)` milliseconds.
    pub fn new(duration_ms: u64, frequency: u32) -> (b: BlinkState)
        requires
            1 <= frequency <= 0x7fff_ffff,
        ensures
            b == (BlinkState {
                blink_timer: CountdownTimer {
                    elapsed_ms: 0,
                    duration_ms: duration_ms / (frequency * 2) as u64,
                },
                blinks_left: (frequency * 2) as u32,
                visible: true,
            }),
            b.wf(),
            !b.expired(),
    {
        let toggles: u32 = frequency * 2;
        BlinkState {
            blink_timer: CountdownTimer::new(duration_ms / toggles as u64),
            blinks_left: toggles,
            visible: true,
        }
    }

    /// The status has run its course once no toggle is owed.
    pub open spec fn expired(self) -> bool {
        self.blinks_left == 0
    }

    /// Advance the blink by `dt_ms` elapsed milliseconds; reports whether
    /// the status has now expired and should be detached this same tick.
    pub fn tick(&mut self, dt_ms: u64) -> (expired: bool)
        requires
            old(self).wf(),
        ensures
            *final(self) == old(self).stepped(dt_ms),
            final(self).wf(),
            expired == final(self).expired(),
            expired ==> final(self).visible,
            final(self).blinks_left <= old(self).blinks_left,
    {
        let toggle = self.blink_timer.tick(dt_ms);
        if toggle && self.blinks_left > 0 {
            self.blinks_left = self.blinks_left - 1;
            self.blink_timer.reset();
            if self.blinks_left == 0 {
                self.visible = true;
                return true;
            }
            self.visible = !self.visible;
        }
        self.blinks_left == 0
    }
}

/// The blink status always leaves its entity fully visible once its whole
/// toggle budget has run out, whatever the frequency and however the
/// elapsed time was split into ticks: the toggle count starts even, and
/// every observation point with no toggles left shows the entity visible.
pub proof fn lemma_blink_ends_visible(b: BlinkState, dts: Seq<u64>)
    requires
        b.wf(),
    ensures
        b.stepped_all(dts).wf(),
        b.stepped_all(dts).expired() ==> b.stepped_all(dts).visible,
    decreases dts.len(),
{
    if dts.len() > 0 {
        let b1 = b.stepped(dts[0]);
        assert(b1.wf());
        lemma_blink_ends_visible(b1, dts.drop_first());
    } else {
        if b.expired() {
            assert(b.blinks_left % 2 == 0);
        }
    }
}

} // verus!
