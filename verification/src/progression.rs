//! Player progression: level, experience, and the growing threshold.
//!
//! Experience pickups feed `cur_xp`; a leveling check runs after the
//! collection pass each tick. One check processes at most a single
//! level-up: when the threshold is reached, the level rises by one, the
//! accumulated experience resets to zero (excess above the threshold is
//! discarded, not carried over), and the threshold grows by half of
//! itself, rounded down. Large values saturate instead of wrapping, which
//! keeps level and threshold monotonic without exception.

use vstd::prelude::*;

verus! {

/// The singleton progression tracker.
#[derive(Clone, Copy, Debug, PartialEq, Eq, Structural)]
pub struct PlayerLevel {
    pub cur_level: u32,
    pub cur_xp: u64,
    pub next_level_threshold: u64,
}

/// One progression mutation: a pickup's experience value arriving, or the
/// per-tick leveling check.
#[derive(Clone, Copy, Debug, PartialEq, Eq, Structural)]
pub enum ProgressOp {
    AddXp(u64),
    LevelCheck,
}

impl PlayerLevel {
    /// The tracker after `value` experience is collected: experience only
    /// accumulates, saturating at the integer limit.
    pub open spec fn with_xp(self, value: u64) -> PlayerLevel {
        PlayerLevel {
            cur_xp: if self.cur_xp + value <= u64::MAX {
                (self.cur_xp + value) as u64
            } else {
                u64::MAX
            },
            ..self
        }
    }

    /// The threshold after one level-up: one and a half times the old one,
    /// rounded down, saturating at the integer limit.
    pub open spec fn grown_threshold(self) -> u64 {
        if self.next_level_threshold + self.next_level_threshold / 2 <= u64::MAX {
            (self.next_level_threshold + self.next_level_threshold / 2) as u64
        } else {
            u64::MAX
        }
    }

    /// The tracker after one leveling check: at most one level-up, with
    /// excess experience discarded.
    pub open spec fn leveled(self) -> PlayerLevel {
        if self.cur_xp >= self.next_level_threshold {
            PlayerLevel {
                cur_level: if self.cur_level < u32::MAX {
                    (self.cur_level + 1) as u32
                } else {
                    u32::MAX
                },
                cur_xp: 0,
                next_level_threshold: self.grown_threshold(),
            }
        } else {
            self
        }
    }

    /// The tracker after one `ProgressOp`.
    pub open spec fn after_op(self, op: ProgressOp) -> PlayerLevel {
        match op {
            ProgressOp::AddXp(value) => self.with_xp(value),
            ProgressOp::LevelCheck => self.leveled(),
        }
    }

    /// The tracker after a whole sequence of `ProgressOp`s, in order.
    pub open spec fn after_ops(self, ops: Seq<ProgressOp>) -> PlayerLevel
        decreases ops.len(),
    {
        if ops.len() == 0 {
            self
        } else {
            self.after_op(ops[0]).after_ops(ops.drop_first())
        }
    }

    /// Add collected experience, saturating at the integer limit.
    pub fn add_xp(&mut self, value: u64)
        ensures
            *final(self) == old(self).with_xp(value),
            final(self).cur_xp >= old(self).cur_xp,
            final(self).cur_level == old(self).cur_level,
            final(self).next_level_threshold == old(self).next_level_threshold,
    {
        if value <= u64::MAX - self.cur_xp {
            self.cur_xp = self.cur_xp + value;
        } else {
            self.cur_xp = u64::MAX;
        }
    }

    /// The per-tick leveling check: if the threshold is reached, raise the
    /// level by one, discard the accumulated experience, and grow the
    /// threshold by half. Reports whether a level-up happened.
    pub fn update_level(&mut self) -> (leveled_up: bool)
        ensures
            *final(self) == old(self).leveled(),
            leveled_up == (old(self).cur_xp >= old(self).next_level_threshold),
            final(self).cur_level >= old(self).cur_level,
            final(self).cur_level <= old(self).cur_level + 1,
            final(self).next_level_threshold >= old(self).next_level_threshold,
    {
        if self.cur_xp >= self.next_level_threshold {
            if self.cur_level < u32::MAX {
                self.cur_level = self.cur_level + 1;
            }
            self.cur_xp = 0;
            let half = self.next_level_threshold / 2;
            if half <= u64::MAX - self.next_level_threshold {
                self.next_level_threshold = self.next_level_threshold + half;
            } else {
                self.next_level_threshold = u64::MAX;
            }
            true
        } else {
            false
        }
    }
}

impl Default for PlayerLevel {
    /// A new game starts at level one, no experience, and a threshold of
    /// thirty experience points.
    fn default() -> (p: PlayerLevel)
        ensures
            p == (PlayerLevel { cur_level: 1, cur_xp: 0, next_level_threshold: 30 }),
    {
        PlayerLevel { cur_level: 1, cur_xp: 0, next_level_threshold: 30 }
    }
}

/// Leveling is monotonic under every sequence of collections and leveling
/// checks: at every observation point, the level never sits below where it
/// started and the threshold never shrinks, and since each check performs
/// at most one level-up, the level climbs by at most one per check.
pub proof fn lemma_leveling_monotonic(p: PlayerLevel, ops: Seq<ProgressOp>)
    ensures
        forall|i: int| 0 <= i <= ops.len() ==> (#[trigger] p.after_ops(
            ops.take(i),
        )).cur_level >= p.cur_level,
        forall|i: int| 0 <= i <= ops.len() ==> (#[trigger] p.after_ops(
            ops.take(i),
        )).next_level_threshold >= p.next_level_threshold,
{
    assert forall|i: int| 0 <= i <= ops.len() implies (#[trigger] p.after_ops(
        ops.take(i),
    )).cur_level >= p.cur_level && p.after_ops(ops.take(i)).next_level_threshold
        >= p.next_level_threshold by {
        lemma_progress_monotonic_one(p, ops.take(i));
    }
}

/// One whole sequence of progression operations never lowers the level or
/// the threshold.
proof fn lemma_progress_monotonic_one(p: PlayerLevel, ops: Seq<ProgressOp>)
    ensures
        p.after_ops(ops).cur_level >= p.cur_level,
        p.after_ops(ops).next_level_threshold >= p.next_level_threshold,
    decreases ops.len(),
{
    if ops.len() > 0 {
        let p1 = p.after_op(ops[0]);
        assert(p1.cur_level >= p.cur_level);
        assert(p1.next_level_threshold >= p.next_level_threshold);
        lemma_progress_monotonic_one(p1, ops.drop_first());
    }
}

} // verus!
