//! Hit points for any damageable entity (the hurtbox model).
//!
//! `Health` tracks current and maximum hit points. Damage and healing clamp
//! at the mutation boundary, so `0 <= cur_hp <= max_hp` holds at every
//! observation point; nothing ever needs to repair the invariant after the
//! fact.

use vstd::prelude::*;

verus! {

/// Current and maximum hit points of one entity.
#[derive(Clone, Copy, Debug, PartialEq, Eq, Structural)]
pub struct Health {
    pub cur_hp: u32,
    pub max_hp: u32,
}

/// One health mutation, as issued by the combat and pickup passes.
#[derive(Clone, Copy, Debug, PartialEq, Eq, Structural)]
pub enum HealthOp {
    Damage(u32),
    Heal(u32),
}

impl Health {
    /// The health invariant: current hit points never exceed the maximum.
    pub open spec fn wf(self) -> bool {
        self.cur_hp <= self.max_hp
    }

    /// The value after taking `amount` damage: subtract, clamped at zero.
    pub open spec fn damaged(self, amount: u32) -> Health {
        Health {
            cur_hp: if self.cur_hp >= amount {
                (self.cur_hp - amount) as u32
            } else {
                0u32
            },
            max_hp: self.max_hp,
        }
    }

    /// The value after healing by `amount`: add, clamped at the maximum.
    pub open spec fn healed(self, amount: u32) -> Health {
        Health {
            cur_hp: if self.cur_hp + amount <= self.max_hp {
                (self.cur_hp + amount) as u32
            } else {
                self.max_hp
            },
            max_hp: self.max_hp,
        }
    }

    /// The value after one `HealthOp`.
    pub open spec fn after_op(self, op: HealthOp) -> Health {
        match op {
            HealthOp::Damage(amount) => self.damaged(amount),
            HealthOp::Heal(amount) => self.healed(amount),
        }
    }

    /// The value after a whole sequence of `HealthOp`s, applied in order.
    pub open spec fn after_ops(self, ops: Seq<HealthOp>) -> Health
        decreases ops.len(),
    {
        if ops.len() == 0 {
            self
        } else {
            self.after_op(ops[0]).after_ops(ops.drop_first())
        }
    }

    /// Fresh health: spawned entities start at full hit points.
    pub fn new(max_hp: u32) -> (h: Health)
        ensures
            h == (Health { cur_hp: max_hp, max_hp: max_hp }),
            h.wf(),
    {
        Health { cur_hp: max_hp, max_hp }
    }

    /// Reduce current hit points by `amount`, clamping at zero.
    pub fn take_damage(&mut self, amount: u32)
        ensures
            *final(self) == old(self).damaged(amount),
            old(self).wf() ==> final(self).wf(),
            final(self).cur_hp <= old(self).cur_hp,
    {
        if self.cur_hp >= amount {
            self.cur_hp = self.cur_hp - amount;
        } else {
            self.cur_hp = 0;
        }
    }

    /// Raise current hit points by `amount`, clamping at the maximum.
    pub fn heal(&mut self, amount: u32)
        requires
            old(self).wf(),
        ensures
            *final(self) == old(self).healed(amount),
            final(self).wf(),
            final(self).cur_hp >= old(self).cur_hp,
    {
        let sum: u64 = self.cur_hp as u64 + amount as u64;
        if sum <= self.max_hp as u64 {
            self.cur_hp = sum as u32;
        } else {
            self.cur_hp = self.max_hp;
        }
    }

    /// True once current hit points have reached zero; the death-handling
    /// pass despawns such entities and emits their `Died` event.
    pub fn is_dead(&self) -> (r: bool)
        ensures
            r == (self.cur_hp == 0),
    {
        self.cur_hp == 0
    }

    /// Remaining hit points as thousandths of the maximum, clamped to
    /// `[0, 1000]`; the healthbar foreground width is proportional to it.
    pub fn remaining_fraction(&self) -> (r: u32)
        requires
            self.max_hp > 0,
        ensures
            r == (if self.cur_hp <= self.max_hp {
                (self.cur_hp as int * 1000) / (self.max_hp as int)
            } else {
                1000int
            }),
            r <= 1000,
    {
        if self.cur_hp <= self.max_hp {
            let scaled: u64 = self.cur_hp as u64 * 1000;
            let frac: u64 = scaled / self.max_hp as u64;
            proof {
                lemma_fraction_at_most_1000(self.cur_hp as int, self.max_hp as int);
            }
            frac as u32
        } else {
            1000
        }
    }
}

/// A fraction of at most one, in thousandths, stays at most 1000.
proof fn lemma_fraction_at_most_1000(cur: int, max: int)
    requires
        0 <= cur <= max,
        0 < max,
    ensures
        cur * 1000 / max <= 1000,
{
    assert(cur * 1000 <= max * 1000) by (nonlinear_arith)
        requires cur <= max;
    assert(cur * 1000 / max <= max * 1000 / max) by {
        vstd::arithmetic::div_mod::lemma_div_is_ordered(cur * 1000, max * 1000, max);
    }
    assert(max * 1000 / max == 1000) by (nonlinear_arith)
        requires 0 < max;
}

/// Hit points stay within `[0, max]` under every sequence of damage and
/// heal operations, at every observation point: every prefix of the
/// sequence leaves the health well formed.
pub proof fn lemma_health_bounds_over_ops(h: Health, ops: Seq<HealthOp>)
    requires
        h.wf(),
    ensures
        forall|i: int| 0 <= i <= ops.len() ==> #[trigger] h.after_ops(ops.take(i)).wf(),
    decreases ops.len(),
{
    assert forall|i: int| 0 <= i <= ops.len() implies #[trigger] h.after_ops(ops.take(i)).wf() by {
        lemma_health_prefix_wf(h, ops.take(i));
    }
}

/// A single whole sequence of health operations leaves the health well
/// formed.
proof fn lemma_health_prefix_wf(h: Health, ops: Seq<HealthOp>)
    requires
        h.wf(),
    ensures
        h.after_ops(ops).wf(),
    decreases ops.len(),
{
    if ops.len() > 0 {
        let h1 = h.after_op(ops[0]);
        assert(h1.wf());
        lemma_health_prefix_wf(h1, ops.drop_first());
    }
}

} // verus!
