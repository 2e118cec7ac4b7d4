//! Enemy spawn cadence and difficulty scaling.
//!
//! The spawner holds a minimum and maximum delay and a countdown drawn
//! uniformly from `[min_delay, max_delay)`. When the countdown finishes,
//! one enemy is spawned and a fresh delay is drawn for the next one, so
//! the scheduled time between two consecutive spawns always lies in
//! `[min_delay, max_delay)`; a spawn can only run late by less than the
//! final tick's frame time, never early.
//!
//! Enemy health scales with elapsed session time: a monotonically
//! non-decreasing multiplier of half the elapsed whole minutes, floored at
//! one, applied to the base health at spawn time and never reset.

use crate::rng;
use crate::timer::CountdownTimer;
use crate::vec2::{
    cos_cmil, mul_div_trunc, sin_cmil, spec_clamp, spec_cos_cmil, spec_div_trunc, spec_sin_cmil,
    Vec2i, POS_LIMIT,
};
use vstd::prelude::*;

verus! {

/// The time-based enemy spawner.
#[derive(Clone, Copy, Debug, PartialEq, Eq, Structural)]
pub struct EnemySpawner {
    pub min_delay_ms: u64,
    pub max_delay_ms: u64,
    pub timer: CountdownTimer,
}

impl EnemySpawner {
    /// The spawner invariant: the delay window is non-empty and the
    /// current countdown was drawn inside it.
    pub open spec fn wf(self) -> bool {
        &&& self.min_delay_ms < self.max_delay_ms
        &&& self.timer.wf()
        &&& self.min_delay_ms <= self.timer.duration_ms < self.max_delay_ms
    }

    /// Draw a fresh countdown, uniform over `[min_delay_ms, max_delay_ms)`.
    pub fn get_timer(min_delay_ms: u64, max_delay_ms: u64) -> (t: CountdownTimer)
        requires
            min_delay_ms < max_delay_ms,
        ensures
            t.wf(),
            t.elapsed_ms == 0,
            min_delay_ms <= t.duration_ms < max_delay_ms,
    {
        CountdownTimer::new(rng::gen_range_u64(min_delay_ms, max_delay_ms))
    }

    /// A spawner over the given delay window, with its first delay drawn.
    pub fn new(min_delay_ms: u64, max_delay_ms: u64) -> (s: EnemySpawner)
        requires
            min_delay_ms < max_delay_ms,
        ensures
            s.wf(),
            s.min_delay_ms == min_delay_ms,
            s.max_delay_ms == max_delay_ms,
            s.timer.elapsed_ms == 0,
    {
        EnemySpawner {
            min_delay_ms,
            max_delay_ms,
            timer: Self::get_timer(min_delay_ms, max_delay_ms),
        }
    }

    /// Redraw the countdown for the next spawn.
    pub fn update(&mut self)
        requires
            old(self).wf(),
        ensures
            final(self).wf(),
            final(self).min_delay_ms == old(self).min_delay_ms,
            final(self).max_delay_ms == old(self).max_delay_ms,
            final(self).timer.elapsed_ms == 0,
    {
        self.timer = Self::get_timer(self.min_delay_ms, self.max_delay_ms);
    }

    /// Advance the countdown by one tick; reports whether a spawn is due.
    /// A spawn is due only once the whole drawn delay has elapsed, and the
    /// drawn delay is at least `min_delay_ms`, so two spawns are never
    /// closer than the minimum delay.
    pub fn tick(&mut self, dt_ms: u64) -> (due: bool)
        requires
            old(self).wf(),
        ensures
            final(self).wf(),
            final(self).min_delay_ms == old(self).min_delay_ms,
            final(self).max_delay_ms == old(self).max_delay_ms,
            final(self).timer == old(self).timer.ticked(dt_ms),
            due == (old(self).timer.elapsed_ms + dt_ms >= old(self).timer.duration_ms),
    {
        self.timer.tick(dt_ms)
    }
}

impl Default for EnemySpawner {
    /// The stable tuning: one enemy every one to two seconds.
    fn default() -> (s: EnemySpawner)
        ensures
            s.wf(),
            s.min_delay_ms == 1000,
            s.max_delay_ms == 2000,
    {
        EnemySpawner::new(1000, 2000)
    }
}

/// The scheduled time between two consecutive spawns is bounded by the
/// delay window: whenever the spawner is well formed, the countdown it
/// waits on was drawn in `[min_delay_ms, max_delay_ms)`, and ticks totaling
/// less than that drawn delay never make a spawn due.
pub proof fn lemma_spawn_rate_bounded(s: EnemySpawner, dt_ms: u64)
    requires
        s.wf(),
    ensures
        s.min_delay_ms <= s.timer.duration_ms < s.max_delay_ms,
        s.timer.elapsed_ms + dt_ms < s.min_delay_ms ==> !s.timer.ticked(dt_ms).spec_finished(),
{
}

/// Enemy health at spawn time: the base health multiplied by half the
/// elapsed whole minutes, floored at the base itself, saturating at the
/// integer limit.
pub open spec fn spec_scaled_enemy_health(base_hp: u32, elapsed_ms: u64) -> u32 {
    let scaled = (base_hp as int * (elapsed_ms as int / 60000)) / 2;
    if scaled <= base_hp {
        base_hp
    } else if scaled <= u32::MAX {
        scaled as u32
    } else {
        u32::MAX
    }
}

/// The maximum health a freshly spawned enemy gets, `elapsed_ms` into the
/// session.
pub fn scaled_enemy_health(base_hp: u32, elapsed_ms: u64) -> (hp: u32)
    ensures
        hp == spec_scaled_enemy_health(base_hp, elapsed_ms),
        hp >= base_hp,
{
    let minutes: u64 = elapsed_ms / 60000;
    proof {
        lemma_scaling_product_fits(base_hp as int, minutes as int);
    }
    let scaled_wide: u128 = (base_hp as u128 * minutes as u128) / 2;
    if scaled_wide <= base_hp as u128 {
        base_hp
    } else if scaled_wide <= u32::MAX as u128 {
        scaled_wide as u32
    } else {
        u32::MAX
    }
}

/// The scaling product of a base health and a whole-minute count fits the
/// wide integer the computation runs in.
proof fn lemma_scaling_product_fits(base_hp: int, minutes: int)
    requires
        0 <= base_hp < 0x1_0000_0000,
        0 <= minutes < 0x1_0000_0000_0000_0000,
    ensures
        base_hp * minutes <= u128::MAX,
{
    assert(base_hp * minutes < 0x1_0000_0000_0000_0000_0000_0000) by (nonlinear_arith)
        requires
            0 <= base_hp < 0x1_0000_0000,
            0 <= minutes < 0x1_0000_0000_0000_0000;
}

/// Where a spawn at a given attack angle lands on the horizontal axis:
/// the player's position plus the rotated spawn distance, clamped into
/// the arena.
pub open spec fn spec_spawn_x(player_position: Vec2i, distance: int, angle_cd: int) -> int {
    spec_clamp(
        player_position.x + spec_div_trunc(distance * spec_cos_cmil(angle_cd), 1000),
        POS_LIMIT as int,
    )
}

/// The vertical counterpart of `spec_spawn_x`.
pub open spec fn spec_spawn_y(player_position: Vec2i, distance: int, angle_cd: int) -> int {
    spec_clamp(
        player_position.y + spec_div_trunc(distance * spec_sin_cmil(angle_cd), 1000),
        POS_LIMIT as int,
    )
}

/// Where to place a spawned enemy: the unit vector along the positive
/// horizontal axis, rotated by the attack angle, scaled by the spawn
/// distance, offset from the player's position; at an angle of zero the
/// enemy lands exactly `distance_from_player` to the player's right.
pub fn angle_from_player(
    player_position: Vec2i,
    distance_from_player: i64,
    attack_angle_cd: u32,
) -> (pos: Vec2i)
    requires
        0 <= distance_from_player <= 1_000_000,
        attack_angle_cd < 36000,
        player_position.bounded(POS_LIMIT as int),
    ensures
        pos.x == spec_spawn_x(player_position, distance_from_player as int, attack_angle_cd as int),
        pos.y == spec_spawn_y(player_position, distance_from_player as int, attack_angle_cd as int),
        pos.bounded(POS_LIMIT as int),
{
    let c = cos_cmil(attack_angle_cd);
    let s = sin_cmil(attack_angle_cd);
    let offset = Vec2i {
        x: mul_div_trunc(distance_from_player, c, 1000),
        y: mul_div_trunc(distance_from_player, s, 1000),
    };
    player_position.add_clamped(offset, POS_LIMIT)
}

/// Place a spawned enemy at the spawn distance from the player, at an
/// angle drawn uniformly over the whole turn.
pub fn random_angle(player_position: Vec2i, distance_from_player: i64) -> (pos: Vec2i)
    requires
        0 <= distance_from_player <= 1_000_000,
        player_position.bounded(POS_LIMIT as int),
    ensures
        pos.bounded(POS_LIMIT as int),
        exists|a: int|
            0 <= a < 36000 && pos.x == spec_spawn_x(player_position, distance_from_player as int, a)
                && pos.y == #[trigger] spec_spawn_y(
                player_position,
                distance_from_player as int,
                a,
            ),
{
    let attack_angle = rng::gen_range_u64(0, 36000);
    let pos = angle_from_player(player_position, distance_from_player, attack_angle as u32);
    proof {
        assert(pos.y == spec_spawn_y(
            player_position,
            distance_from_player as int,
            attack_angle as int,
        ));
    }
    pos
}

/// Difficulty scaling never decreases: more elapsed session time never
/// spawns a weaker enemy.
pub proof fn lemma_difficulty_monotonic(base_hp: u32, e1: u64, e2: u64)
    requires
        e1 <= e2,
    ensures
        spec_scaled_enemy_health(base_hp, e1) <= spec_scaled_enemy_health(base_hp, e2),
{
    let m1 = e1 as int / 60000;
    let m2 = e2 as int / 60000;
    vstd::arithmetic::div_mod::lemma_div_is_ordered(e1 as int, e2 as int, 60000);
    vstd::arithmetic::mul::lemma_mul_inequality(m1, m2, base_hp as int);
    vstd::arithmetic::div_mod::lemma_div_is_ordered(
        base_hp as int * m1,
        base_hp as int * m2,
        2,
    );
    vstd::arithmetic::mul::lemma_mul_is_commutative(base_hp as int, m1);
    vstd::arithmetic::mul::lemma_mul_is_commutative(base_hp as int, m2);
}

} // verus!
