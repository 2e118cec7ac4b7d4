//! The simulation world and its per-tick passes.
//!
//! All entities live in one store; relations between them are id-valued
//! fields resolved by lookup each tick, and a lookup miss on a transient
//! cross-reference (a projectile's target, a touch event's enemy) is a
//! recoverable no-op: that single unit of work is dropped and the pass
//! continues. One tick is a fixed, ordered sequence of passes; no pass
//! observes a partially applied mutation of another, because each pass
//! completes before the next starts and structural removals are deferred
//! to the flush at the end of the tick.
//!
//! The host engine supplies frame time, input state and overlap sets; the
//! physics collaborator is stood in for by a velocity integration pass,
//! since the only actuation channel the rules write is velocity.

use crate::blink::BlinkState;
use crate::events::{
    EnemyTouchedPlayerEvent, EntityEvent, EntityKind, EventKind, ProjectileHitEvent, TickInput,
};
use crate::health::Health;
use crate::progression::PlayerLevel;
use crate::spawner::EnemySpawner;
use crate::timer::CountdownTimer;
use crate::rng;
use crate::vec2::{
    cos_cmil, mul_div_trunc, sin_cmil, spec_clamp, spec_div_trunc, spec_unit_milli_x,
    spec_unit_milli_y, Vec2i, POS_LIMIT, VEL_LIMIT,
};
use vstd::prelude::*;

verus! {

/// Hit points a fresh player starts with.
pub const PLAYER_MAX_HP: u32 = 15;

/// Contact damage an enemy deals the player.
pub const CONTACT_DAMAGE: u32 = 5;

/// Damage carried by each projectile the player shoots.
pub const PROJECTILE_DAMAGE: u32 = 5;

/// Base hit points of a spawned enemy, before difficulty scaling.
pub const ENEMY_BASE_HP: u32 = 15;

/// Experience value of one experience pickup.
pub const XP_CRUMB_VALUE: u32 = 5;

/// Hit points restored by one healing pickup.
pub const HEAL_CRUMB_AMOUNT: u32 = 5;

/// How long the player stays invulnerable after contact damage, in
/// milliseconds.
pub const INVULN_DURATION_MS: u64 = 2000;

/// Blink frequency of the invulnerability flicker: the visibility toggles
/// twice per unit.
pub const INVULN_BLINK_FREQUENCY: u32 = 5;

/// Cooldown between two shots, in milliseconds.
pub const SHOOT_COOLDOWN_MS: u64 = 250;

/// Cooldown between two dashes, in milliseconds.
pub const DASH_COOLDOWN_MS: u64 = 500;

/// Lifetime of a projectile that hits nothing, in milliseconds.
pub const BULLET_LIFETIME_MS: u64 = 4000;

/// Bounds of the random delay between enemy spawns, in milliseconds.
pub const SPAWN_MIN_DELAY_MS: u64 = 1000;

pub const SPAWN_MAX_DELAY_MS: u64 = 2000;

/// How far from the player an enemy is placed, in world units.
pub const ENEMY_SPAWN_DISTANCE: i64 = 400;

/// Movement acceleration constants, in world units per second.
pub const PLAYER_ACCELERATION: i64 = 1250;

pub const ENEMY_ACCELERATION: i64 = 700;

pub const BULLET_ACCELERATION: i64 = 30000;

/// Knockback impulse scale for enemy contact.
pub const PUSH_ACCELERATION: i64 = 10000;

/// Velocity multiplier of a dash relative to ordinary movement.
pub const DASH_MULTIPLIER: i64 = 25;

/// Radius of the player's pickup collection sensor, in world units; the
/// physics collaborator uses it to report experience pickup overlaps.
pub const COLLECTION_RADIUS: i64 = 200;

/// The player combatant.
#[derive(Clone, Copy, Debug, PartialEq, Eq, Structural)]
pub struct PlayerState {
    pub pos: Vec2i,
    pub vel: Vec2i,
    pub health: Health,
    pub shoot_cooldown: Option<CountdownTimer>,
    pub dash_cooldown: Option<CountdownTimer>,
    /// The invulnerability window with its blink, while one is active.
    pub invuln: Option<BlinkState>,
    /// A queued one-shot knockback velocity, consumed by the next
    /// movement pass.
    pub pushed: Option<Vec2i>,
}

impl PlayerState {
    pub open spec fn wf(self) -> bool {
        &&& self.health.wf()
        &&& self.pos.bounded(POS_LIMIT as int)
        &&& self.vel.bounded(VEL_LIMIT as int)
        &&& match self.invuln {
            Some(b) => b.wf(),
            None => true,
        }
        &&& match self.shoot_cooldown {
            Some(t) => t.wf(),
            None => true,
        }
        &&& match self.dash_cooldown {
            Some(t) => t.wf(),
            None => true,
        }
        &&& match self.pushed {
            Some(v) => v.bounded(VEL_LIMIT as int),
            None => true,
        }
    }

    /// The player is invulnerable while a blink status is attached.
    pub open spec fn spec_invulnerable(self) -> bool {
        self.invuln is Some
    }

    /// The visibility the renderer draws: blinking entities flicker,
    /// everyone else is fully visible.
    pub open spec fn spec_visible(self) -> bool {
        match self.invuln {
            Some(b) => b.visible,
            None => true,
        }
    }
}

/// One enemy combatant.
#[derive(Clone, Copy, Debug, PartialEq, Eq, Structural)]
pub struct EnemyState {
    pub id: u64,
    pub pos: Vec2i,
    pub vel: Vec2i,
    pub health: Health,
}

impl EnemyState {
    pub open spec fn wf(self) -> bool {
        &&& self.health.wf()
        &&& self.pos.bounded(POS_LIMIT as int)
        &&& self.vel.bounded(VEL_LIMIT as int)
    }
}

/// The projectile state machine: active until it hits a valid target
/// (consumed) or its lifetime expires; either way it is removed at the
/// end-of-tick flush.
#[derive(Clone, Copy, Debug, PartialEq, Eq, Structural)]
pub enum ProjectilePhase {
    Active,
    Consumed,
    Expired,
}

/// One projectile in flight.
#[derive(Clone, Copy, Debug, PartialEq, Eq, Structural)]
pub struct ProjectileState {
    pub id: u64,
    pub pos: Vec2i,
    pub vel: Vec2i,
    /// Flight direction, in thousandths of a unit vector.
    pub dir_milli: Vec2i,
    pub damage: u32,
    pub lifetime: CountdownTimer,
    pub phase: ProjectilePhase,
}

impl ProjectileState {
    pub open spec fn wf(self) -> bool {
        &&& self.pos.bounded(POS_LIMIT as int)
        &&& self.vel.bounded(VEL_LIMIT as int)
        &&& self.dir_milli.bounded(1000)
        &&& self.lifetime.wf()
    }
}

/// What a pickup grants on collection.
#[derive(Clone, Copy, Debug, PartialEq, Eq, Structural)]
pub enum PickupKind {
    XpCrumb,
    HealingCrumb,
}

/// One pickup lying in the arena.
#[derive(Clone, Copy, Debug, PartialEq, Eq, Structural)]
pub struct PickupState {
    pub id: u64,
    pub pos: Vec2i,
    pub kind: PickupKind,
    pub value: u32,
}

impl PickupState {
    pub open spec fn wf(self) -> bool {
        self.pos.bounded(POS_LIMIT as int)
    }
}

/// A queued shot, decided by the input pass and spawned by the bullet
/// spawner in the same tick.
#[derive(Clone, Copy, Debug, PartialEq, Eq, Structural)]
pub struct ShootEvent {
    pub shot_location: Vec2i,
    /// Shot direction in thousandths of a unit vector, aim jitter already
    /// applied.
    pub shot_direction: Vec2i,
    pub damage: u32,
}

/// A projectile's velocity component for one tick: its stored direction
/// scaled by the bullet acceleration and the frame time, capped at the
/// speed limit.
pub open spec fn spec_bullet_vel(dir_component: int, dt_ms: u64) -> int {
    spec_clamp(
        spec_div_trunc(dir_component * (BULLET_ACCELERATION as int * dt_ms as int), 1_000_000),
        VEL_LIMIT as int,
    )
}

/// Whether an enemy with this id is in the store, and at which index.
pub open spec fn spec_has_enemy(s: Seq<EnemyState>, id: u64) -> bool {
    exists|i: int| 0 <= i < s.len() && s[i].id == id
}

pub open spec fn spec_enemy_index(s: Seq<EnemyState>, id: u64) -> int {
    choose|i: int| 0 <= i < s.len() && s[i].id == id
}

/// Whether a projectile with this id is in the store, and at which index.
pub open spec fn spec_has_projectile(s: Seq<ProjectileState>, id: u64) -> bool {
    exists|i: int| 0 <= i < s.len() && s[i].id == id
}

pub open spec fn spec_projectile_index(s: Seq<ProjectileState>, id: u64) -> int {
    choose|i: int| 0 <= i < s.len() && s[i].id == id
}

/// Whether a pickup with this id is in the store, and at which index.
pub open spec fn spec_has_pickup(s: Seq<PickupState>, id: u64) -> bool {
    exists|i: int| 0 <= i < s.len() && s[i].id == id
}

pub open spec fn spec_pickup_index(s: Seq<PickupState>, id: u64) -> int {
    choose|i: int| 0 <= i < s.len() && s[i].id == id
}

/// Every entity list is well formed: entities are well formed, their ids
/// were allocated below the world's id counter, and no id repeats.
pub open spec fn enemies_ok(s: Seq<EnemyState>, next_id: u64) -> bool {
    &&& forall|i: int| 0 <= i < s.len() ==> (#[trigger] s[i]).wf() && s[i].id < next_id
    &&& forall|i: int, j: int| 0 <= i < j < s.len() ==> s[i].id != s[j].id
}

pub open spec fn projectiles_ok(s: Seq<ProjectileState>, next_id: u64) -> bool {
    &&& forall|i: int| 0 <= i < s.len() ==> (#[trigger] s[i]).wf() && s[i].id < next_id
    &&& forall|i: int, j: int| 0 <= i < j < s.len() ==> s[i].id != s[j].id
}

pub open spec fn pickups_ok(s: Seq<PickupState>, next_id: u64) -> bool {
    &&& forall|i: int| 0 <= i < s.len() ==> (#[trigger] s[i]).wf() && s[i].id < next_id
    &&& forall|i: int, j: int| 0 <= i < j < s.len() ==> s[i].id != s[j].id
}

/// The record of projectiles that have dealt their damage: no projectile
/// appears twice, and every recorded id was allocated.
pub open spec fn hit_log_ok(log: Seq<u64>, next_id: u64) -> bool {
    &&& forall|k: int, l: int| 0 <= k < l < log.len() ==> log[k] != log[l]
    &&& forall|k: int| 0 <= k < log.len() ==> log[k] < next_id
}

/// A projectile is in the consumed phase exactly when its damage is on
/// record: damage is dealt on the one transition into that phase.
pub open spec fn phases_match_log(s: Seq<ProjectileState>, log: Seq<u64>) -> bool {
    forall|i: int|
        0 <= i < s.len() ==> ((#[trigger] s[i]).phase == ProjectilePhase::Consumed <==> log.contains(
            s[i].id,
        ))
}

/// The whole simulation state: one central store owning every entity, the
/// singleton resources, and the ghost record of dealt projectile hits.
pub struct World {
    pub player: PlayerState,
    pub enemies: Vec<EnemyState>,
    pub projectiles: Vec<ProjectileState>,
    pub pickups: Vec<PickupState>,
    pub level: PlayerLevel,
    pub spawner: EnemySpawner,
    /// Session time, in milliseconds.
    pub elapsed_ms: u64,
    /// The next entity id to allocate; ids are never reused.
    pub next_id: u64,
    /// Which projectiles have dealt their damage, in order.
    pub hit_log: Ghost<Seq<u64>>,
}

impl World {
    /// The world invariant, preserved by every pass and every tick.
    pub open spec fn inv(self) -> bool {
        &&& self.player.wf()
        &&& self.spawner.wf()
        &&& enemies_ok(self.enemies@, self.next_id)
        &&& projectiles_ok(self.projectiles@, self.next_id)
        &&& pickups_ok(self.pickups@, self.next_id)
        &&& hit_log_ok(self.hit_log@, self.next_id)
        &&& phases_match_log(self.projectiles@, self.hit_log@)
    }

    /// A fresh game: the player at the origin at full health, no other
    /// entities, progression at level one, and the spawner armed.
    pub fn new() -> (w: World)
        ensures
            w.inv(),
            w.player.pos == (Vec2i { x: 0, y: 0 }),
            w.player.health == (Health { cur_hp: PLAYER_MAX_HP, max_hp: PLAYER_MAX_HP }),
            w.player.invuln is None,
            w.enemies@.len() == 0,
            w.projectiles@.len() == 0,
            w.pickups@.len() == 0,
            w.level == (PlayerLevel { cur_level: 1, cur_xp: 0, next_level_threshold: 30 }),
            w.elapsed_ms == 0,
            w.next_id == 0,
            w.hit_log@.len() == 0,
    {
        World {
            player: PlayerState {
                pos: Vec2i::zero(),
                vel: Vec2i::zero(),
                health: Health::new(PLAYER_MAX_HP),
                shoot_cooldown: None,
                dash_cooldown: None,
                invuln: None,
                pushed: None,
            },
            enemies: Vec::new(),
            projectiles: Vec::new(),
            pickups: Vec::new(),
            level: PlayerLevel::default(),
            spawner: EnemySpawner::new(SPAWN_MIN_DELAY_MS, SPAWN_MAX_DELAY_MS),
            elapsed_ms: 0,
            next_id: 0,
            hit_log: Ghost(Seq::empty()),
        }
    }

    /// Everything but the player is as it was.
    pub open spec fn same_except_player(self, pre: World) -> bool {
        &&& self.enemies@ == pre.enemies@
        &&& self.projectiles@ == pre.projectiles@
        &&& self.pickups@ == pre.pickups@
        &&& self.level == pre.level
        &&& self.spawner == pre.spawner
        &&& self.elapsed_ms == pre.elapsed_ms
        &&& self.next_id == pre.next_id
        &&& self.hit_log@ == pre.hit_log@
    }

    /// Apply movement intent to the player's velocity: ordinary movement
    /// accelerates along the intent; a dash, when its cooldown is clear,
    /// adds a one-off burst and starts the cooldown. A zero intent means
    /// no movement is pressed, so no dash fires either.
    pub fn movement(&mut self, move_dir: Vec2i, dash_just_pressed: bool, dt_ms: u64)
        requires
            old(self).inv(),
            move_dir.bounded(1000),
            0 < dt_ms <= 60000,
        ensures
            final(self).inv(),
            final(self).same_except_player(*old(self)),
            final(self).player == (PlayerState { vel: final(self).player.vel, dash_cooldown: final(self).player.dash_cooldown, ..old(self).player }),
            (move_dir.x == 0 && move_dir.y == 0) ==> final(self).player == old(self).player,
            ({
                let scale = PLAYER_ACCELERATION as int * dt_ms as int;
                let moved_x = spec_clamp(
                    old(self).player.vel.x + spec_div_trunc(move_dir.x as int * scale, 1_000_000),
                    VEL_LIMIT as int,
                );
                let moved_y = spec_clamp(
                    old(self).player.vel.y + spec_div_trunc(move_dir.y as int * scale, 1_000_000),
                    VEL_LIMIT as int,
                );
                let dashing = dash_just_pressed && old(self).player.dash_cooldown is None;
                (move_dir.x != 0 || move_dir.y != 0) ==> {
                    &&& final(self).player.vel.x == (if dashing {
                        spec_clamp(
                            moved_x + spec_div_trunc(
                                move_dir.x as int * (scale * DASH_MULTIPLIER as int),
                                1_000_000,
                            ),
                            VEL_LIMIT as int,
                        )
                    } else {
                        moved_x
                    })
                    &&& final(self).player.vel.y == (if dashing {
                        spec_clamp(
                            moved_y + spec_div_trunc(
                                move_dir.y as int * (scale * DASH_MULTIPLIER as int),
                                1_000_000,
                            ),
                            VEL_LIMIT as int,
                        )
                    } else {
                        moved_y
                    })
                    &&& final(self).player.dash_cooldown == (if dashing {
                        Some(CountdownTimer { elapsed_ms: 0, duration_ms: DASH_COOLDOWN_MS })
                    } else {
                        old(self).player.dash_cooldown
                    })
                }
            }),
    {
        if move_dir.x == 0 && move_dir.y == 0 {
            return ;
        }
        let scale: i64 = PLAYER_ACCELERATION * dt_ms as i64;
        let dv = Vec2i {
            x: mul_div_trunc(move_dir.x, scale, 1_000_000),
            y: mul_div_trunc(move_dir.y, scale, 1_000_000),
        };
        self.player.vel = self.player.vel.add_clamped(dv, VEL_LIMIT);
        if dash_just_pressed && self.player.dash_cooldown.is_none() {
            let dash_scale: i64 = scale * DASH_MULTIPLIER;
            let dash_dv = Vec2i {
                x: mul_div_trunc(move_dir.x, dash_scale, 1_000_000),
                y: mul_div_trunc(move_dir.y, dash_scale, 1_000_000),
            };
            self.player.vel = self.player.vel.add_clamped(dash_dv, VEL_LIMIT);
            self.player.dash_cooldown = Some(CountdownTimer::new(DASH_COOLDOWN_MS));
        }
    }

    /// Consume the queued one-shot knockback, adding it to the player's
    /// velocity and clearing it.
    pub fn process_pushed(&mut self)
        requires
            old(self).inv(),
        ensures
            final(self).inv(),
            final(self).same_except_player(*old(self)),
            final(self).player.pushed is None,
            final(self).player == (PlayerState {
                vel: final(self).player.vel,
                pushed: None,
                ..old(self).player
            }),
            final(self).player.vel.x == (match old(self).player.pushed {
                Some(p) => spec_clamp(old(self).player.vel.x + p.x, VEL_LIMIT as int),
                None => old(self).player.vel.x as int,
            }),
            final(self).player.vel.y == (match old(self).player.pushed {
                Some(p) => spec_clamp(old(self).player.vel.y + p.y, VEL_LIMIT as int),
                None => old(self).player.vel.y as int,
            }),
    {
        match self.player.pushed {
            Some(p) => {
                self.player.vel = self.player.vel.add_clamped(p, VEL_LIMIT);
                self.player.pushed = None;
            },
            None => {},
        }
    }

    /// Tick the dash cooldown and detach it the tick it finishes.
    pub fn tick_dash_cooldown(&mut self, dt_ms: u64)
        requires
            old(self).inv(),
        ensures
            final(self).inv(),
            final(self).same_except_player(*old(self)),
            final(self).player == (PlayerState {
                dash_cooldown: final(self).player.dash_cooldown,
                ..old(self).player
            }),
            final(self).player.dash_cooldown == (match old(self).player.dash_cooldown {
                Some(t) => if t.ticked(dt_ms).spec_finished() {
                    None
                } else {
                    Some(t.ticked(dt_ms))
                },
                None => None,
            }),
    {
        let finished = match &mut self.player.dash_cooldown {
            Some(t) => t.tick(dt_ms),
            None => false,
        };
        if finished {
            self.player.dash_cooldown = None;
        }
    }

    /// Tick the shoot cooldown and detach it the tick it finishes.
    pub fn tick_shot(&mut self, dt_ms: u64)
        requires
            old(self).inv(),
        ensures
            final(self).inv(),
            final(self).same_except_player(*old(self)),
            final(self).player == (PlayerState {
                shoot_cooldown: final(self).player.shoot_cooldown,
                ..old(self).player
            }),
            final(self).player.shoot_cooldown == (match old(self).player.shoot_cooldown {
                Some(t) => if t.ticked(dt_ms).spec_finished() {
                    None
                } else {
                    Some(t.ticked(dt_ms))
                },
                None => None,
            }),
    {
        let finished = match &mut self.player.shoot_cooldown {
            Some(t) => t.tick(dt_ms),
            None => false,
        };
        if finished {
            self.player.shoot_cooldown = None;
        }
    }

    /// Attach a fresh invulnerability window with its blink to the player.
    pub fn go_invulnerable(&mut self)
        requires
            old(self).inv(),
        ensures
            final(self).inv(),
            final(self).same_except_player(*old(self)),
            final(self).player == (PlayerState {
                invuln: final(self).player.invuln,
                ..old(self).player
            }),
            final(self).player.invuln == Some(
                BlinkState {
                    blink_timer: CountdownTimer {
                        elapsed_ms: 0,
                        duration_ms: INVULN_DURATION_MS / (INVULN_BLINK_FREQUENCY * 2) as u64,
                    },
                    blinks_left: (INVULN_BLINK_FREQUENCY * 2) as u32,
                    visible: true,
                },
            ),
    {
        self.player.invuln = Some(BlinkState::new(INVULN_DURATION_MS, INVULN_BLINK_FREQUENCY));
    }

    /// Tick the blink of an invulnerable player, toggling its visibility
    /// on each period; on the tick the toggle budget runs out, the status
    /// detaches and the player is left fully visible.
    pub fn blink_system(&mut self, dt_ms: u64)
        requires
            old(self).inv(),
        ensures
            final(self).inv(),
            final(self).same_except_player(*old(self)),
            final(self).player == (PlayerState {
                invuln: final(self).player.invuln,
                ..old(self).player
            }),
            final(self).player.invuln == (match old(self).player.invuln {
                Some(b) => if b.stepped(dt_ms).expired() {
                    None
                } else {
                    Some(b.stepped(dt_ms))
                },
                None => None,
            }),
            old(self).player.invuln is None ==> final(self).player == old(self).player,
    {
        let expired = match &mut self.player.invuln {
            Some(b) => b.tick(dt_ms),
            None => false,
        };
        if expired {
            self.player.invuln = None;
        }
    }

    /// Decide whether a shot fires this tick: the shoot action must be
    /// held, the shoot cooldown clear, and the aim distinct from the
    /// player's own position. A firing shot points from the player toward
    /// the aim, displaced by a random accuracy jitter of up to five
    /// degrees either way, and starts the shoot cooldown; where fixed
    /// point truncation would degenerate the jittered direction to zero,
    /// the exact aim direction is used, so no shot is ever lost.
    pub fn shoot_input(&mut self, aim: Vec2i, shoot_pressed: bool) -> (shot: Option<ShootEvent>)
        requires
            old(self).inv(),
            aim.bounded(POS_LIMIT as int),
        ensures
            final(self).inv(),
            final(self).same_except_player(*old(self)),
            final(self).player == (PlayerState {
                shoot_cooldown: final(self).player.shoot_cooldown,
                ..old(self).player
            }),
            (shot is Some) <==> (shoot_pressed && old(self).player.shoot_cooldown is None && aim
                != old(self).player.pos),
            match shot {
                Some(ev) => {
                    &&& ev.shot_location == old(self).player.pos
                    &&& ev.damage == PROJECTILE_DAMAGE
                    &&& ev.shot_direction.bounded(1000)
                    &&& (ev.shot_direction.x != 0 || ev.shot_direction.y != 0)
                    &&& exists|a: int|
                        (0 <= a < 500 || 35500 <= a < 36000) && #[trigger] spec_shot_dir_matches(
                            aim,
                            old(self).player.pos,
                            a,
                            ev.shot_direction,
                        )
                },
                None => true,
            },
            final(self).player.shoot_cooldown == (if shot is Some {
                Some(CountdownTimer { elapsed_ms: 0, duration_ms: SHOOT_COOLDOWN_MS })
            } else {
                old(self).player.shoot_cooldown
            }),
    {
        if !shoot_pressed || self.player.shoot_cooldown.is_some() {
            return None;
        }
        let dir0 = aim.sub(self.player.pos);
        if dir0.x == 0 && dir0.y == 0 {
            return None;
        }
        let jitter = rng::gen_range_u64(0, 1000);
        let angle: u32 = if jitter < 500 {
            (jitter + 35500) as u32
        } else {
            (jitter - 500) as u32
        };
        let c = cos_cmil(angle);
        let s = sin_cmil(angle);
        let rotated = Vec2i {
            x: mul_div_trunc(dir0.x, c, 1000),
            y: mul_div_trunc(dir0.x, s, 1000),
        }.add_clamped(
            Vec2i { x: mul_div_trunc(dir0.y, -s, 1000), y: mul_div_trunc(dir0.y, c, 1000) },
            2_000_000_000,
        );
        let shot_direction = if rotated.x != 0 || rotated.y != 0 {
            rotated.dir_milli()
        } else {
            dir0.dir_milli()
        };
        proof {
            assert(0 <= angle < 500 || 35500 <= angle < 36000);
            assert(spec_shot_dir_matches(aim, old(self).player.pos, angle as int, shot_direction));
            assert(exists|a: int|
                (0 <= a < 500 || 35500 <= a < 36000) && #[trigger] spec_shot_dir_matches(
                    aim,
                    old(self).player.pos,
                    a,
                    shot_direction,
                ));
        }
        self.player.shoot_cooldown = Some(CountdownTimer::new(SHOOT_COOLDOWN_MS));
        Some(ShootEvent { shot_location: self.player.pos, shot_direction, damage: PROJECTILE_DAMAGE })
    }

    /// Spawn the projectile a queued shot describes: a fresh entity at the
    /// shot location, flying along the shot direction, carrying the shot's
    /// damage, alive for the bullet lifetime, in the active phase.
    pub fn bullet_spawner(&mut self, ev: ShootEvent)
        requires
            old(self).inv(),
            old(self).next_id < u64::MAX,
            ev.shot_location.bounded(POS_LIMIT as int),
            ev.shot_direction.bounded(1000),
        ensures
            final(self).inv(),
            final(self).projectiles@ == old(self).projectiles@.push(
                ProjectileState {
                    id: old(self).next_id,
                    pos: ev.shot_location,
                    vel: Vec2i { x: 0, y: 0 },
                    dir_milli: ev.shot_direction,
                    damage: ev.damage,
                    lifetime: CountdownTimer { elapsed_ms: 0, duration_ms: BULLET_LIFETIME_MS },
                    phase: ProjectilePhase::Active,
                },
            ),
            final(self).next_id == old(self).next_id + 1,
            final(self).player == old(self).player,
            final(self).enemies@ == old(self).enemies@,
            final(self).pickups@ == old(self).pickups@,
            final(self).level == old(self).level,
            final(self).spawner == old(self).spawner,
            final(self).elapsed_ms == old(self).elapsed_ms,
            final(self).hit_log@ == old(self).hit_log@,
    {
        let id = self.next_id;
        self.next_id = self.next_id + 1;
        self.projectiles.push(
            ProjectileState {
                id,
                pos: ev.shot_location,
                vel: Vec2i::zero(),
                dir_milli: ev.shot_direction,
                damage: ev.damage,
                lifetime: CountdownTimer::new(BULLET_LIFETIME_MS),
                phase: ProjectilePhase::Active,
            },
        );
        proof {
            assert forall|i: int|
                0 <= i < self.projectiles@.len() implies ((#[trigger] self.projectiles@[i]).phase
                == ProjectilePhase::Consumed <==> self.hit_log@.contains(
                self.projectiles@[i].id,
            )) by {
                if i == self.projectiles@.len() - 1 {
                    if self.hit_log@.contains(id) {
                        let k = choose|k: int|
                            0 <= k < self.hit_log@.len() && self.hit_log@[k] == id;
                        assert(self.hit_log@[k] < id);
                    }
                }
            }
        }
    }

    /// Set each projectile's velocity along its stored direction, scaled
    /// by its acceleration and the frame time.
    pub fn move_bullets(&mut self, dt_ms: u64)
        requires
            old(self).inv(),
            0 < dt_ms <= 60000,
        ensures
            final(self).inv(),
            final(self).projectiles@.len() == old(self).projectiles@.len(),
            forall|k: int|
                0 <= k < old(self).projectiles@.len() ==> #[trigger] final(self).projectiles@[k]
                    == (ProjectileState {
                    vel: final(self).projectiles@[k].vel,
                    ..old(self).projectiles@[k]
                }) && final(self).projectiles@[k].vel.x == spec_bullet_vel(
                    old(self).projectiles@[k].dir_milli.x as int,
                    dt_ms,
                ) && final(self).projectiles@[k].vel.y == spec_bullet_vel(
                    old(self).projectiles@[k].dir_milli.y as int,
                    dt_ms,
                ),
            final(self).player == old(self).player,
            final(self).enemies@ == old(self).enemies@,
            final(self).pickups@ == old(self).pickups@,
            final(self).level == old(self).level,
            final(self).spawner == old(self).spawner,
            final(self).elapsed_ms == old(self).elapsed_ms,
            final(self).next_id == old(self).next_id,
            final(self).hit_log@ == old(self).hit_log@,
    {
        let scale: i64 = BULLET_ACCELERATION * dt_ms as i64;
        let n = self.projectiles.len();
        let mut i: usize = 0;
        while i < n
            invariant
                old(self).inv(),
                0 < dt_ms <= 60000,
                scale == BULLET_ACCELERATION as int * dt_ms as int,
                i <= n,
                n == self.projectiles@.len(),
                n == old(self).projectiles@.len(),
                forall|k: int|
                    i <= k < n ==> #[trigger] self.projectiles@[k] == old(self).projectiles@[k],
                forall|k: int|
                    0 <= k < i ==> #[trigger] self.projectiles@[k] == (ProjectileState {
                        vel: self.projectiles@[k].vel,
                        ..old(self).projectiles@[k]
                    }) && self.projectiles@[k].vel.x == spec_bullet_vel(
                        old(self).projectiles@[k].dir_milli.x as int,
                        dt_ms,
                    ) && self.projectiles@[k].vel.y == spec_bullet_vel(
                        old(self).projectiles@[k].dir_milli.y as int,
                        dt_ms,
                    ),
                forall|k: int|
                    0 <= k < n ==> (#[trigger] self.projectiles@[k]).wf()
                        && self.projectiles@[k].id == old(self).projectiles@[k].id
                        && self.projectiles@[k].phase == old(self).projectiles@[k].phase,
                self.player == old(self).player,
                self.enemies@ == old(self).enemies@,
                self.pickups@ == old(self).pickups@,
                self.level == old(self).level,
                self.spawner == old(self).spawner,
                self.elapsed_ms == old(self).elapsed_ms,
                self.next_id == old(self).next_id,
                self.hit_log@ == old(self).hit_log@,
            decreases n - i,
        {
            let mut p = self.projectiles[i];
            let vx = mul_div_trunc(p.dir_milli.x, scale, 1_000_000);
            let vy = mul_div_trunc(p.dir_milli.y, scale, 1_000_000);
            p.vel = Vec2i::zero().add_clamped(Vec2i { x: vx, y: vy }, VEL_LIMIT);
            self.projectiles[i] = p;
            i = i + 1;
        }
        proof {
            assert(phases_match_log(self.projectiles@, self.hit_log@));
        }
    }

    /// Tick every projectile's lifetime; one whose lifetime runs out
    /// while still active expires, to be removed at the end-of-tick flush.
    pub fn expire_bullets(&mut self, dt_ms: u64)
        requires
            old(self).inv(),
        ensures
            final(self).inv(),
            final(self).projectiles@.len() == old(self).projectiles@.len(),
            forall|k: int|
                0 <= k < old(self).projectiles@.len() ==> #[trigger] final(self).projectiles@[k]
                    == (ProjectileState {
                    lifetime: old(self).projectiles@[k].lifetime.ticked(dt_ms),
                    phase: if old(self).projectiles@[k].phase == ProjectilePhase::Active && old(self).projectiles@[k].lifetime.ticked(dt_ms).spec_finished() {
                        ProjectilePhase::Expired
                    } else {
                        old(self).projectiles@[k].phase
                    },
                    ..old(self).projectiles@[k]
                }),
            final(self).player == old(self).player,
            final(self).enemies@ == old(self).enemies@,
            final(self).pickups@ == old(self).pickups@,
            final(self).level == old(self).level,
            final(self).spawner == old(self).spawner,
            final(self).elapsed_ms == old(self).elapsed_ms,
            final(self).next_id == old(self).next_id,
            final(self).hit_log@ == old(self).hit_log@,
    {
        let n = self.projectiles.len();
        let mut i: usize = 0;
        while i < n
            invariant
                old(self).inv(),
                i <= n,
                n == self.projectiles@.len(),
                n == old(self).projectiles@.len(),
                forall|k: int|
                    i <= k < n ==> #[trigger] self.projectiles@[k] == old(self).projectiles@[k],
                forall|k: int|
                    0 <= k < i ==> #[trigger] self.projectiles@[k] == (ProjectileState {
                        lifetime: old(self).projectiles@[k].lifetime.ticked(dt_ms),
                        phase: if old(self).projectiles@[k].phase == ProjectilePhase::Active && old(self).projectiles@[k].lifetime.ticked(dt_ms).spec_finished() {
                            ProjectilePhase::Expired
                        } else {
                            old(self).projectiles@[k].phase
                        },
                        ..old(self).projectiles@[k]
                    }),
                forall|k: int|
                    0 <= k < n ==> (#[trigger] self.projectiles@[k]).wf()
                        && self.projectiles@[k].id == old(self).projectiles@[k].id
                        && (self.projectiles@[k].phase == ProjectilePhase::Consumed <==> old(self).projectiles@[k].phase == ProjectilePhase::Consumed),
                self.player == old(self).player,
                self.enemies@ == old(self).enemies@,
                self.pickups@ == old(self).pickups@,
                self.level == old(self).level,
                self.spawner == old(self).spawner,
                self.elapsed_ms == old(self).elapsed_ms,
                self.next_id == old(self).next_id,
                self.hit_log@ == old(self).hit_log@,
            decreases n - i,
        {
            let mut p = self.projectiles[i];
            let done = p.lifetime.tick(dt_ms);
            if done && matches!(p.phase, ProjectilePhase::Active) {
                p.phase = ProjectilePhase::Expired;
            }
            self.projectiles[i] = p;
            i = i + 1;
        }
        proof {
            assert(phases_match_log(self.projectiles@, self.hit_log@));
        }
    }

    /// Look an enemy up by its id; `None` when it is gone.
    pub fn find_enemy(&self, id: u64) -> (r: Option<usize>)
        requires
            self.inv(),
        ensures
            (r is Some) <==> spec_has_enemy(self.enemies@, id),
            match r {
                Some(i) => i < self.enemies@.len() && self.enemies@[i as int].id == id && i as int
                    == spec_enemy_index(self.enemies@, id),
                None => true,
            },
    {
        let n = self.enemies.len();
        let mut i: usize = 0;
        while i < n
            invariant
                self.inv(),
                i <= n,
                n == self.enemies@.len(),
                forall|k: int| 0 <= k < i ==> (#[trigger] self.enemies@[k]).id != id,
            decreases n - i,
        {
            if self.enemies[i].id == id {
                return Some(i);
            }
            i = i + 1;
        }
        None
    }

    /// Look a projectile up by its id; `None` when it is gone.
    pub fn find_projectile(&self, id: u64) -> (r: Option<usize>)
        requires
            self.inv(),
        ensures
            (r is Some) <==> spec_has_projectile(self.projectiles@, id),
            match r {
                Some(i) => i < self.projectiles@.len() && self.projectiles@[i as int].id == id && i
                    as int == spec_projectile_index(self.projectiles@, id),
                None => true,
            },
    {
        let n = self.projectiles.len();
        let mut i: usize = 0;
        while i < n
            invariant
                self.inv(),
                i <= n,
                n == self.projectiles@.len(),
                forall|k: int| 0 <= k < i ==> (#[trigger] self.projectiles@[k]).id != id,
            decreases n - i,
        {
            if self.projectiles[i].id == id {
                return Some(i);
            }
            i = i + 1;
        }
        None
    }

    /// Resolve the tick's reported projectile overlaps, in reported order.
    /// Each active projectile deals its stored damage to the first valid
    /// target reported for it and is consumed by doing so, so one
    /// projectile applies damage at most once however many overlaps the
    /// physics collaborator reports; a hit whose projectile or target has
    /// meanwhile gone is dropped as a no-op. Damage emits a took-damage
    /// event, and the hit that brings a target from positive hit points
    /// to zero emits its one died event.
    pub fn handle_projectile_hits(&mut self, hits: &Vec<ProjectileHitEvent>) -> (events: Vec<
        EntityEvent,
    >)
        requires
            old(self).inv(),
        ensures
            final(self).inv(),
            final(self).player == old(self).player,
            final(self).pickups@ == old(self).pickups@,
            final(self).level == old(self).level,
            final(self).spawner == old(self).spawner,
            final(self).elapsed_ms == old(self).elapsed_ms,
            final(self).next_id == old(self).next_id,
            projectile_phases_advanced(old(self).projectiles@, final(self).projectiles@),
            enemies_only_damaged(old(self).enemies@, final(self).enemies@),
            old(self).hit_log@.is_prefix_of(final(self).hit_log@),
            hits_resolved(*old(self), *final(self), hits@, hits@.len() as int),
            events_are_enemy_combat(events@),
            died_events_mark_dead(*final(self), events@),
            events@.len() <= 2 * hits@.len(),
            // the exact effect of the pass, hit by hit
            ({
                let outcome = spec_hits_outcome(
                    old(self).projectiles@,
                    old(self).enemies@,
                    old(self).hit_log@,
                    Seq::<EntityEvent>::empty(),
                    hits@,
                );
                &&& final(self).projectiles@ == outcome.0
                &&& final(self).enemies@ == outcome.1
                &&& final(self).hit_log@ == outcome.2
                &&& events@ == outcome.3
            }),
            // entities no reported hit names are left untouched
            forall|k: int|
                0 <= k < old(self).enemies@.len() && !hits_name_target(
                    hits@,
                    (#[trigger] old(self).enemies@[k]).id,
                ) ==> final(self).enemies@[k] == old(self).enemies@[k],
            forall|k: int|
                0 <= k < old(self).projectiles@.len() && !hits_name_projectile(
                    hits@,
                    (#[trigger] old(self).projectiles@[k]).id,
                ) ==> final(self).projectiles@[k] == old(self).projectiles@[k],
    {
        let mut events: Vec<EntityEvent> = Vec::new();
        let n = hits.len();
        let mut i: usize = 0;
        proof {
            assert(events@ =~= Seq::<EntityEvent>::empty());
            assert(hits@.skip(0) =~= hits@);
        }
        while i < n
            invariant
                old(self).inv(),
                self.inv(),
                i <= n,
                n == hits@.len(),
                self.player == old(self).player,
                self.pickups@ == old(self).pickups@,
                self.level == old(self).level,
                self.spawner == old(self).spawner,
                self.elapsed_ms == old(self).elapsed_ms,
                self.next_id == old(self).next_id,
                projectile_phases_advanced(old(self).projectiles@, self.projectiles@),
                enemies_only_damaged(old(self).enemies@, self.enemies@),
                old(self).hit_log@.is_prefix_of(self.hit_log@),
                hits_resolved(*old(self), *self, hits@, i as int),
                events_are_enemy_combat(events@),
                died_events_mark_dead(*self, events@),
                events@.len() <= 2 * i,
                spec_hits_outcome(
                    old(self).projectiles@,
                    old(self).enemies@,
                    old(self).hit_log@,
                    Seq::<EntityEvent>::empty(),
                    hits@,
                ) == spec_hits_outcome(
                    self.projectiles@,
                    self.enemies@,
                    self.hit_log@,
                    events@,
                    hits@.skip(i as int),
                ),
                forall|k: int|
                    0 <= k < old(self).enemies@.len() && !hits_name_target(
                        hits@,
                        (#[trigger] old(self).enemies@[k]).id,
                    ) ==> self.enemies@[k] == old(self).enemies@[k],
                forall|k: int|
                    0 <= k < old(self).projectiles@.len() && !hits_name_projectile(
                        hits@,
                        (#[trigger] old(self).projectiles@[k]).id,
                    ) ==> self.projectiles@[k] == old(self).projectiles@[k],
            decreases n - i,
        {
            let hit = hits[i];
            let ghost pre = *self;
            let ghost ev_pre = events@;
            let proj_idx = self.find_projectile(hit.projectile);
            match proj_idx {
                Some(pi) => {
                    let is_active = matches!(self.projectiles[pi].phase, ProjectilePhase::Active);
                    if is_active {
                        let target_idx = self.find_enemy(hit.target);
                        match target_idx {
                            Some(ei) => {
                                let damage = self.projectiles[pi].damage;
                                let mut enemy = self.enemies[ei];
                                let was_alive = enemy.health.cur_hp > 0;
                                enemy.health.take_damage(damage);
                                let now_dead = enemy.health.cur_hp == 0;
                                self.enemies[ei] = enemy;
                                events.push(
                                    EntityEvent::new(
                                        EntityKind::Enemy,
                                        EventKind::TookDamage,
                                        hit.target,
                                    ),
                                );
                                let mut proj = self.projectiles[pi];
                                proj.phase = ProjectilePhase::Consumed;
                                self.projectiles[pi] = proj;
                                self.hit_log = Ghost(self.hit_log@.push(proj.id));
                                if was_alive && now_dead {
                                    events.push(
                                        EntityEvent::new(
                                            EntityKind::Enemy,
                                            EventKind::Died,
                                            hit.target,
                                        ),
                                    );
                                }
                                proof {
                                    assert(hits_name_target(hits@, pre.enemies@[ei as int].id)) by {
                                        assert(hits@[i as int].target == pre.enemies@[ei as int].id);
                                    }
                                    assert(hits_name_projectile(
                                        hits@,
                                        pre.projectiles@[pi as int].id,
                                    )) by {
                                        assert(hits@[i as int].projectile
                                            == pre.projectiles@[pi as int].id);
                                    }
                                    lemma_consume_projectile(
                                        pre.projectiles@,
                                        self.projectiles@,
                                        pre.hit_log@,
                                        self.hit_log@,
                                        pi as int,
                                        self.next_id,
                                    );
                                    lemma_enemy_update(
                                        pre.enemies@,
                                        self.enemies@,
                                        ei as int,
                                        self.next_id,
                                    );
                                    lemma_hit_consumed_step(
                                        *old(self),
                                        pre,
                                        *self,
                                        hits@,
                                        i as int,
                                        pi as int,
                                        ei as int,
                                    );
                                    assert(died_events_mark_dead(*self, events@)) by {
                                        lemma_died_events_carry(pre, *self, ev_pre, ei as int);
                                        assert forall|e: int|
                                            ev_pre.len() <= e < events@.len() && (
                                            #[trigger] events@[e]).event == EventKind::Died
                                                implies died_event_valid(*self, events@[e]) by {
                                            lemma_enemy_lookup(
                                                self.enemies@,
                                                hit.target,
                                                ei as int,
                                                self.next_id,
                                            );
                                        }
                                    }
                                    lemma_skip_one(hits@, i as int);
                                    assert(self.projectiles@ == pre.projectiles@.update(
                                        pi as int,
                                        ProjectileState {
                                            phase: ProjectilePhase::Consumed,
                                            ..pre.projectiles@[pi as int]
                                        },
                                    ));
                                    assert(self.enemies@ == pre.enemies@.update(
                                        ei as int,
                                        EnemyState {
                                            health: pre.enemies@[ei as int].health.damaged(
                                                pre.projectiles@[pi as int].damage,
                                            ),
                                            ..pre.enemies@[ei as int]
                                        },
                                    ));
                                    assert(spec_hits_outcome(
                                        pre.projectiles@,
                                        pre.enemies@,
                                        pre.hit_log@,
                                        ev_pre,
                                        hits@.skip(i as int),
                                    ) == spec_hits_outcome(
                                        self.projectiles@,
                                        self.enemies@,
                                        self.hit_log@,
                                        events@,
                                        hits@.skip(i as int + 1),
                                    ));
                                }
                            },
                            None => {
                                proof {
                                    lemma_hit_noop_step(*old(self), *self, hits@, i as int);
                                    lemma_skip_one(hits@, i as int);
                                    assert(!spec_has_enemy(pre.enemies@, hit.target));
                                }
                            },
                        }
                    } else {
                        proof {
                            lemma_hit_noop_step(*old(self), *self, hits@, i as int);
                            lemma_skip_one(hits@, i as int);
                            assert(pre.projectiles@[spec_projectile_index(
                                pre.projectiles@,
                                hit.projectile,
                            )].phase != ProjectilePhase::Active);
                        }
                    }
                },
                None => {
                    proof {
                        lemma_hit_noop_step(*old(self), *self, hits@, i as int);
                        lemma_skip_one(hits@, i as int);
                        assert(!spec_has_projectile(pre.projectiles@, hit.projectile));
                    }
                },
            }
            i = i + 1;
        }
        events
    }

    /// Damp the player's and every enemy's velocity by the movement
    /// damping factor: nine tenths, rounded toward zero, each tick.
    pub fn apply_movement_damping(&mut self)
        requires
            old(self).inv(),
        ensures
            final(self).inv(),
            final(self).player == (PlayerState { vel: final(self).player.vel, ..old(self).player }),
            final(self).player.vel.x == spec_damped(old(self).player.vel.x as int),
            final(self).player.vel.y == spec_damped(old(self).player.vel.y as int),
            final(self).enemies@.len() == old(self).enemies@.len(),
            forall|k: int|
                0 <= k < old(self).enemies@.len() ==> #[trigger] final(self).enemies@[k]
                    == (EnemyState { vel: final(self).enemies@[k].vel, ..old(self).enemies@[k] })
                    && final(self).enemies@[k].vel.x == spec_damped(
                    old(self).enemies@[k].vel.x as int,
                ) && final(self).enemies@[k].vel.y == spec_damped(old(self).enemies@[k].vel.y as int),
            final(self).projectiles@ == old(self).projectiles@,
            final(self).pickups@ == old(self).pickups@,
            final(self).level == old(self).level,
            final(self).spawner == old(self).spawner,
            final(self).elapsed_ms == old(self).elapsed_ms,
            final(self).next_id == old(self).next_id,
            final(self).hit_log@ == old(self).hit_log@,
    {
        proof {
            crate::vec2::lemma_div_trunc_bound(
                old(self).player.vel.x as int * 9,
                10,
                VEL_LIMIT as int,
            );
            crate::vec2::lemma_div_trunc_bound(
                old(self).player.vel.y as int * 9,
                10,
                VEL_LIMIT as int,
            );
        }
        self.player.vel = Vec2i {
            x: mul_div_trunc(self.player.vel.x, 9, 10),
            y: mul_div_trunc(self.player.vel.y, 9, 10),
        };
        let n = self.enemies.len();
        let mut i: usize = 0;
        while i < n
            invariant
                old(self).inv(),
                i <= n,
                n == self.enemies@.len(),
                n == old(self).enemies@.len(),
                forall|k: int| i <= k < n ==> #[trigger] self.enemies@[k] == old(self).enemies@[k],
                forall|k: int|
                    0 <= k < i ==> #[trigger] self.enemies@[k] == (EnemyState {
                        vel: self.enemies@[k].vel,
                        ..old(self).enemies@[k]
                    }) && self.enemies@[k].vel.x == spec_damped(old(self).enemies@[k].vel.x as int)
                        && self.enemies@[k].vel.y == spec_damped(old(self).enemies@[k].vel.y as int),
                forall|k: int| 0 <= k < n ==> (#[trigger] self.enemies@[k]).wf(),
                self.player == (PlayerState { vel: self.player.vel, ..old(self).player }),
                self.player.vel.x == spec_damped(old(self).player.vel.x as int),
                self.player.vel.y == spec_damped(old(self).player.vel.y as int),
                self.player.wf(),
                self.projectiles@ == old(self).projectiles@,
                self.pickups@ == old(self).pickups@,
                self.level == old(self).level,
                self.spawner == old(self).spawner,
                self.elapsed_ms == old(self).elapsed_ms,
                self.next_id == old(self).next_id,
                self.hit_log@ == old(self).hit_log@,
            decreases n - i,
        {
            let mut e = self.enemies[i];
            proof {
                crate::vec2::lemma_div_trunc_bound(e.vel.x as int * 9, 10, VEL_LIMIT as int);
                crate::vec2::lemma_div_trunc_bound(e.vel.y as int * 9, 10, VEL_LIMIT as int);
            }
            e.vel = Vec2i { x: mul_div_trunc(e.vel.x, 9, 10), y: mul_div_trunc(e.vel.y, 9, 10) };
            self.enemies[i] = e;
            i = i + 1;
        }
    }

    /// Accelerate every enemy toward the player: each gains velocity along
    /// the unit direction from its own position to the player's, scaled by
    /// the enemy acceleration and the frame time; an enemy standing
    /// exactly on the player holds its course.
    pub fn move_enemies_system(&mut self, dt_ms: u64)
        requires
            old(self).inv(),
            0 < dt_ms <= 60000,
        ensures
            final(self).inv(),
            final(self).enemies@.len() == old(self).enemies@.len(),
            forall|k: int|
                0 <= k < old(self).enemies@.len() ==> #[trigger] final(self).enemies@[k]
                    == (EnemyState { vel: final(self).enemies@[k].vel, ..old(self).enemies@[k] })
                    && final(self).enemies@[k].vel.x == spec_chase_vel(
                    old(self).player.pos,
                    old(self).enemies@[k],
                    dt_ms,
                    true,
                ) && final(self).enemies@[k].vel.y == spec_chase_vel(
                    old(self).player.pos,
                    old(self).enemies@[k],
                    dt_ms,
                    false,
                ),
            final(self).player == old(self).player,
            final(self).projectiles@ == old(self).projectiles@,
            final(self).pickups@ == old(self).pickups@,
            final(self).level == old(self).level,
            final(self).spawner == old(self).spawner,
            final(self).elapsed_ms == old(self).elapsed_ms,
            final(self).next_id == old(self).next_id,
            final(self).hit_log@ == old(self).hit_log@,
    {
        let scale: i64 = ENEMY_ACCELERATION * dt_ms as i64;
        let n = self.enemies.len();
        let mut i: usize = 0;
        while i < n
            invariant
                old(self).inv(),
                0 < dt_ms <= 60000,
                scale == ENEMY_ACCELERATION as int * dt_ms as int,
                i <= n,
                n == self.enemies@.len(),
                n == old(self).enemies@.len(),
                forall|k: int| i <= k < n ==> #[trigger] self.enemies@[k] == old(self).enemies@[k],
                forall|k: int|
                    0 <= k < i ==> #[trigger] self.enemies@[k] == (EnemyState {
                        vel: self.enemies@[k].vel,
                        ..old(self).enemies@[k]
                    }) && self.enemies@[k].vel.x == spec_chase_vel(
                        old(self).player.pos,
                        old(self).enemies@[k],
                        dt_ms,
                        true,
                    ) && self.enemies@[k].vel.y == spec_chase_vel(
                        old(self).player.pos,
                        old(self).enemies@[k],
                        dt_ms,
                        false,
                    ),
                forall|k: int| 0 <= k < n ==> (#[trigger] self.enemies@[k]).wf(),
                self.player == old(self).player,
                self.projectiles@ == old(self).projectiles@,
                self.pickups@ == old(self).pickups@,
                self.level == old(self).level,
                self.spawner == old(self).spawner,
                self.elapsed_ms == old(self).elapsed_ms,
                self.next_id == old(self).next_id,
                self.hit_log@ == old(self).hit_log@,
            decreases n - i,
        {
            let mut e = self.enemies[i];
            let diff = self.player.pos.sub(e.pos);
            if diff.x != 0 || diff.y != 0 {
                let dir = diff.dir_milli();
                let dv = Vec2i {
                    x: mul_div_trunc(dir.x, scale, 1_000_000),
                    y: mul_div_trunc(dir.y, scale, 1_000_000),
                };
                e.vel = e.vel.add_clamped(dv, VEL_LIMIT);
            }
            self.enemies[i] = e;
            i = i + 1;
        }
    }

    /// Advance the spawn countdown; when it finishes, spawn one enemy at
    /// the spawn distance from the player, at a uniformly random angle,
    /// with the base health raised by the current difficulty scaling.
    /// Reports whether an enemy was spawned.
    pub fn spawn_enemies(&mut self, dt_ms: u64) -> (spawned: bool)
        requires
            old(self).inv(),
            old(self).next_id < u64::MAX,
        ensures
            final(self).inv(),
            spawned == (old(self).spawner.timer.elapsed_ms + dt_ms
                >= old(self).spawner.timer.duration_ms),
            final(self).spawner.timer == old(self).spawner.timer.ticked(dt_ms),
            final(self).spawner.min_delay_ms == old(self).spawner.min_delay_ms,
            final(self).spawner.max_delay_ms == old(self).spawner.max_delay_ms,
            !spawned ==> final(self).enemies@ == old(self).enemies@ && final(self).next_id == old(self).next_id,
            spawned ==> final(self).next_id == old(self).next_id + 1 && final(self).enemies@.len()
                == old(self).enemies@.len() + 1 && final(self).enemies@.take(
                old(self).enemies@.len() as int,
            ) == old(self).enemies@ && ({
                let e = final(self).enemies@.last();
                &&& e.id == old(self).next_id
                &&& e.vel == (Vec2i { x: 0, y: 0 })
                &&& e.health == (Health {
                    cur_hp: crate::spawner::spec_scaled_enemy_health(
                        ENEMY_BASE_HP,
                        old(self).elapsed_ms,
                    ),
                    max_hp: crate::spawner::spec_scaled_enemy_health(
                        ENEMY_BASE_HP,
                        old(self).elapsed_ms,
                    ),
                })
                &&& exists|a: int|
                    0 <= a < 36000 && e.pos.x == crate::spawner::spec_spawn_x(
                        old(self).player.pos,
                        ENEMY_SPAWN_DISTANCE as int,
                        a,
                    ) && e.pos.y == #[trigger] crate::spawner::spec_spawn_y(
                        old(self).player.pos,
                        ENEMY_SPAWN_DISTANCE as int,
                        a,
                    )
            }),
            final(self).player == old(self).player,
            final(self).projectiles@ == old(self).projectiles@,
            final(self).pickups@ == old(self).pickups@,
            final(self).level == old(self).level,
            final(self).elapsed_ms == old(self).elapsed_ms,
            final(self).hit_log@ == old(self).hit_log@,
    {
        let due = self.spawner.tick(dt_ms);
        if due {
            let pos = crate::spawner::random_angle(self.player.pos, ENEMY_SPAWN_DISTANCE);
            let hp = crate::spawner::scaled_enemy_health(ENEMY_BASE_HP, self.elapsed_ms);
            let id = self.next_id;
            self.next_id = self.next_id + 1;
            self.enemies.push(
                EnemyState { id, pos, vel: Vec2i::zero(), health: Health::new(hp) },
            );
            proof {
                assert(final(self).enemies@.take(old(self).enemies@.len() as int) == old(self).enemies@) by {
                    assert(self.enemies@.take(old(self).enemies@.len() as int) =~= old(self).enemies@);
                }
            }
        }
        due
    }

    /// Once the spawn countdown has finished, draw a fresh random delay in
    /// the spawn window for the next enemy.
    pub fn update_spawner_timer(&mut self)
        requires
            old(self).inv(),
        ensures
            final(self).inv(),
            final(self).spawner.min_delay_ms == old(self).spawner.min_delay_ms,
            final(self).spawner.max_delay_ms == old(self).spawner.max_delay_ms,
            !old(self).spawner.timer.spec_finished() ==> *final(self) == *old(self),
            old(self).spawner.timer.spec_finished() ==> final(self).spawner.timer.elapsed_ms == 0,
            final(self).player == old(self).player,
            final(self).enemies@ == old(self).enemies@,
            final(self).projectiles@ == old(self).projectiles@,
            final(self).pickups@ == old(self).pickups@,
            final(self).level == old(self).level,
            final(self).elapsed_ms == old(self).elapsed_ms,
            final(self).next_id == old(self).next_id,
            final(self).hit_log@ == old(self).hit_log@,
    {
        if self.spawner.timer.finished() {
            self.spawner.update();
        }
    }

    /// Turn the reported overlap set into touch events, dropping enemies
    /// that are no longer in the store.
    pub fn emit_player_contact_events(&self, touching: &Vec<u64>) -> (evs: Vec<
        EnemyTouchedPlayerEvent,
    >)
        requires
            self.inv(),
        ensures
            forall|k: int|
                0 <= k < evs@.len() ==> spec_has_enemy(self.enemies@, (#[trigger] evs@[k]).enemy)
                    && touching@.contains(evs@[k].enemy),
            forall|j: int|
                0 <= j < touching@.len() && spec_has_enemy(self.enemies@, #[trigger] touching@[j])
                    ==> evs@.contains(EnemyTouchedPlayerEvent { enemy: touching@[j] }),
            evs@.len() > 0 ==> touching@.len() > 0,
    {
        let mut evs: Vec<EnemyTouchedPlayerEvent> = Vec::new();
        let n = touching.len();
        let mut i: usize = 0;
        while i < n
            invariant
                self.inv(),
                i <= n,
                n == touching@.len(),
                forall|k: int|
                    0 <= k < evs@.len() ==> spec_has_enemy(
                        self.enemies@,
                        (#[trigger] evs@[k]).enemy,
                    ) && touching@.contains(evs@[k].enemy),
                forall|j: int|
                    0 <= j < i && spec_has_enemy(self.enemies@, #[trigger] touching@[j])
                        ==> evs@.contains(EnemyTouchedPlayerEvent { enemy: touching@[j] }),
                evs@.len() > 0 ==> touching@.len() > 0,
            decreases n - i,
        {
            let id = touching[i];
            match self.find_enemy(id) {
                Some(_) => {
                    let ghost ev0 = evs@;
                    evs.push(EnemyTouchedPlayerEvent::new(id));
                    proof {
                        assert(touching@.contains(id)) by {
                            assert(touching@[i as int] == id);
                        }
                        assert forall|j: int|
                            0 <= j < i + 1 && spec_has_enemy(
                                self.enemies@,
                                #[trigger] touching@[j],
                            ) implies evs@.contains(
                            EnemyTouchedPlayerEvent { enemy: touching@[j] },
                        ) by {
                            if j < i {
                                let w = choose|k: int|
                                    0 <= k < ev0.len() && ev0[k] == (EnemyTouchedPlayerEvent {
                                        enemy: touching@[j],
                                    });
                                assert(evs@[w] == (EnemyTouchedPlayerEvent {
                                    enemy: touching@[j],
                                }));
                            } else {
                                assert(evs@[evs@.len() - 1] == (EnemyTouchedPlayerEvent {
                                    enemy: touching@[j],
                                }));
                            }
                        }
                    }
                },
                None => {},
            }
            i = i + 1;
        }
        evs
    }

    /// Resolve this tick's enemy contact: the first touch event damages
    /// the player by the contact amount and grants a fresh invulnerability
    /// window, unless one is already active, in which case no contact
    /// damage applies at all this tick; at most one contact damage is
    /// applied per tick however many enemies touch. Every touch whose
    /// enemy still exists also queues a knockback push away from that
    /// enemy, gated by nothing: being invulnerable does not stop the
    /// shoving. Damage emits a player took-damage event, and fatal damage
    /// emits the player's died event.
    pub fn handle_enemy_collisions(
        &mut self,
        touch_events: &Vec<EnemyTouchedPlayerEvent>,
        dt_ms: u64,
    ) -> (events: Vec<EntityEvent>)
        requires
            old(self).inv(),
            0 < dt_ms <= 60000,
        ensures
            final(self).inv(),
            final(self).enemies@ == old(self).enemies@,
            final(self).projectiles@ == old(self).projectiles@,
            final(self).pickups@ == old(self).pickups@,
            final(self).level == old(self).level,
            final(self).spawner == old(self).spawner,
            final(self).elapsed_ms == old(self).elapsed_ms,
            final(self).next_id == old(self).next_id,
            final(self).hit_log@ == old(self).hit_log@,
            final(self).player == (PlayerState {
                health: final(self).player.health,
                invuln: final(self).player.invuln,
                pushed: final(self).player.pushed,
                ..old(self).player
            }),
            ({
                let dmg = touch_events@.len() > 0 && !old(self).player.spec_invulnerable();
                let hurt = old(self).player.health.damaged(CONTACT_DAMAGE);
                let died = old(self).player.health.cur_hp > 0 && hurt.cur_hp == 0;
                &&& final(self).player.health == (if dmg {
                    hurt
                } else {
                    old(self).player.health
                })
                &&& final(self).player.invuln == (if dmg {
                    Some(
                        BlinkState {
                            blink_timer: CountdownTimer {
                                elapsed_ms: 0,
                                duration_ms: INVULN_DURATION_MS / (INVULN_BLINK_FREQUENCY
                                    * 2) as u64,
                            },
                            blinks_left: (INVULN_BLINK_FREQUENCY * 2) as u32,
                            visible: true,
                        },
                    )
                } else {
                    old(self).player.invuln
                })
                &&& events@ =~= (if dmg {
                    if died {
                        seq![
                            EntityEvent {
                                kind: EntityKind::Player,
                                event: EventKind::TookDamage,
                                entity: 0,
                            },
                            EntityEvent {
                                kind: EntityKind::Player,
                                event: EventKind::Died,
                                entity: 0,
                            },
                        ]
                    } else {
                        seq![
                            EntityEvent {
                                kind: EntityKind::Player,
                                event: EventKind::TookDamage,
                                entity: 0,
                            },
                        ]
                    }
                } else {
                    Seq::<EntityEvent>::empty()
                })
            }),
            touch_events@.len() == 0 ==> final(self).player == old(self).player,
            // the queued knockback: one impulse away from every touching
            // enemy that exists, invulnerable or not
            final(self).player.pushed == spec_push_after_touches(
                old(self).player.pushed,
                old(self).player.pos,
                old(self).enemies@,
                touch_events@,
                dt_ms,
            ),
    {
        let mut events: Vec<EntityEvent> = Vec::new();
        let invulnerable = self.player.invuln.is_some();
        let mut applied_dmg = false;
        let n = touch_events.len();
        let mut i: usize = 0;
        proof {
            assert(touch_events@.skip(0) =~= touch_events@);
        }
        while i < n
            invariant
                old(self).inv(),
                self.inv(),
                0 < dt_ms <= 60000,
                i <= n,
                n == touch_events@.len(),
                invulnerable == old(self).player.spec_invulnerable(),
                applied_dmg == (i > 0 && !invulnerable),
                i == 0 ==> self.player.pushed == old(self).player.pushed,
                spec_push_after_touches(
                    old(self).player.pushed,
                    old(self).player.pos,
                    old(self).enemies@,
                    touch_events@,
                    dt_ms,
                ) == spec_push_after_touches(
                    self.player.pushed,
                    old(self).player.pos,
                    old(self).enemies@,
                    touch_events@.skip(i as int),
                    dt_ms,
                ),
                self.enemies@ == old(self).enemies@,
                self.projectiles@ == old(self).projectiles@,
                self.pickups@ == old(self).pickups@,
                self.level == old(self).level,
                self.spawner == old(self).spawner,
                self.elapsed_ms == old(self).elapsed_ms,
                self.next_id == old(self).next_id,
                self.hit_log@ == old(self).hit_log@,
                self.player == (PlayerState {
                    health: self.player.health,
                    invuln: self.player.invuln,
                    pushed: self.player.pushed,
                    ..old(self).player
                }),
                ({
                    let hurt = old(self).player.health.damaged(CONTACT_DAMAGE);
                    let died = old(self).player.health.cur_hp > 0 && hurt.cur_hp == 0;
                    &&& self.player.health == (if applied_dmg {
                        hurt
                    } else {
                        old(self).player.health
                    })
                    &&& self.player.invuln == (if applied_dmg {
                        Some(
                            BlinkState {
                                blink_timer: CountdownTimer {
                                    elapsed_ms: 0,
                                    duration_ms: INVULN_DURATION_MS / (INVULN_BLINK_FREQUENCY
                                        * 2) as u64,
                                },
                                blinks_left: (INVULN_BLINK_FREQUENCY * 2) as u32,
                                visible: true,
                            },
                        )
                    } else {
                        old(self).player.invuln
                    })
                    &&& events@ =~= (if applied_dmg {
                        if died {
                            seq![
                                EntityEvent {
                                    kind: EntityKind::Player,
                                    event: EventKind::TookDamage,
                                    entity: 0,
                                },
                                EntityEvent {
                                    kind: EntityKind::Player,
                                    event: EventKind::Died,
                                    entity: 0,
                                },
                            ]
                        } else {
                            seq![
                                EntityEvent {
                                    kind: EntityKind::Player,
                                    event: EventKind::TookDamage,
                                    entity: 0,
                                },
                            ]
                        }
                    } else {
                        Seq::<EntityEvent>::empty()
                    })
                }),
            decreases n - i,
        {
            let ev = touch_events[i];
            if !applied_dmg && !invulnerable {
                let was_alive = self.player.health.cur_hp > 0;
                self.player.health.take_damage(CONTACT_DAMAGE);
                events.push(EntityEvent::new(EntityKind::Player, EventKind::TookDamage, 0));
                if was_alive && self.player.health.cur_hp == 0 {
                    events.push(EntityEvent::new(EntityKind::Player, EventKind::Died, 0));
                }
                self.player.invuln = Some(
                    BlinkState::new(INVULN_DURATION_MS, INVULN_BLINK_FREQUENCY),
                );
                applied_dmg = true;
            }
            let ghost entry_pushed = self.player.pushed;
            proof {
                lemma_skip_one(touch_events@, i as int);
            }
            match self.find_enemy(ev.enemy) {
                Some(ei) => {
                    let diff = self.player.pos.sub(self.enemies[ei].pos);
                    if diff.x != 0 || diff.y != 0 {
                        let dir = diff.dir_milli();
                        let scale: i64 = PUSH_ACCELERATION * dt_ms as i64;
                        let pv = Vec2i {
                            x: mul_div_trunc(dir.x, scale, 1_000_000),
                            y: mul_div_trunc(dir.y, scale, 1_000_000),
                        };
                        let acc = match self.player.pushed {
                            Some(p) => p,
                            None => Vec2i::zero(),
                        };
                        self.player.pushed = Some(acc.add_clamped(pv, VEL_LIMIT));
                        proof {
                            assert(spec_push_after_touches(
                                entry_pushed,
                                old(self).player.pos,
                                old(self).enemies@,
                                touch_events@.skip(i as int),
                                dt_ms,
                            ) == spec_push_after_touches(
                                self.player.pushed,
                                old(self).player.pos,
                                old(self).enemies@,
                                touch_events@.skip(i as int + 1),
                                dt_ms,
                            ));
                        }
                    } else {
                        proof {
                            assert(spec_has_enemy(old(self).enemies@, ev.enemy));
                        }
                    }
                },
                None => {
                    proof {
                        assert(!spec_has_enemy(old(self).enemies@, ev.enemy));
                    }
                },
            }
            i = i + 1;
        }
        events
    }


    /// Run one simulated tick: the fixed, ordered sequence of passes over
    /// the input the host supplied. Movement intent and knockback feed
    /// velocities; shots spawn and fly; reported projectile overlaps
    /// resolve into at-most-once damage; cooldowns, lifetimes, the spawn
    /// countdown and the blink advance and self-remove on expiry; contact
    /// with enemies damages and shoves the player under the
    /// invulnerability gate; pickups collect into experience, levels and
    /// healing; enemies that died this tick drop one pickup each and
    /// despawn; consumed and expired projectiles flush; damping and the
    /// physics stand-in close the tick. Returns every domain event the
    /// tick emitted, in order.
    /// The combat front of one tick: movement intent and queued knockback
    /// feed the player's velocity, a shot may fire and spawn its
    /// projectile, projectiles fly, the reported overlaps resolve into
    /// at-most-once damage, and the shoot cooldown and bullet lifetimes
    /// advance. Everything outside the player's movement state and the
    /// combat stores is untouched.
    #[verifier::rlimit(100)]
    fn resolve_combat(&mut self, input: &TickInput) -> (events: Vec<EntityEvent>)
        requires
            old(self).inv(),
            input.wf(),
            old(self).next_id < u64::MAX,
        ensures
            final(self).inv(),
            final(self).player.pos == old(self).player.pos,
            final(self).player.health == old(self).player.health,
            final(self).player.invuln == old(self).player.invuln,
            final(self).player.pushed is None,
            final(self).level == old(self).level,
            final(self).pickups@ == old(self).pickups@,
            final(self).spawner == old(self).spawner,
            final(self).elapsed_ms == old(self).elapsed_ms,
            enemies_only_damaged(old(self).enemies@, final(self).enemies@),
            old(self).hit_log@.is_prefix_of(final(self).hit_log@),
            events_are_enemy_combat(events@),
            events@.len() <= 2 * input.projectile_hits@.len(),
            final(self).next_id == old(self).next_id + (if input.shoot_pressed && old(self).player.shoot_cooldown is None && input.aim != old(self).player.pos {
                1int
            } else {
                0int
            }),
            forall|k: int|
                0 <= k < old(self).projectiles@.len() ==> (#[trigger] final(self).projectiles@[k]).id == old(self).projectiles@[k].id,
            final(self).projectiles@.len() >= old(self).projectiles@.len(),
            // for input naming allocated ids only, the exact combat
            // outcome over the store as it stood
            spec_input_ids_allocated(*input, old(self).next_id) ==> ({
                let combat = spec_hits_outcome(
                    old(self).projectiles@,
                    old(self).enemies@,
                    old(self).hit_log@,
                    Seq::<EntityEvent>::empty(),
                    input.projectile_hits@,
                );
                &&& final(self).enemies@ == combat.1
                &&& final(self).hit_log@ == combat.2
                &&& events@ == combat.3
                &&& forall|j: int|
                    0 <= j < input.projectile_hits@.len() && spec_has_projectile(
                        old(self).projectiles@,
                        (#[trigger] input.projectile_hits@[j]).projectile,
                    ) && old(self).projectiles@[spec_projectile_index(
                        old(self).projectiles@,
                        input.projectile_hits@[j].projectile,
                    )].phase == ProjectilePhase::Active && spec_has_enemy(
                        old(self).enemies@,
                        input.projectile_hits@[j].target,
                    ) ==> final(self).projectiles@[spec_projectile_index(
                        old(self).projectiles@,
                        input.projectile_hits@[j].projectile,
                    )].phase != ProjectilePhase::Active
            }),
    {
        let dt_ms = input.dt_ms;
        self.movement(input.move_dir, input.dash_pressed, dt_ms);
        self.process_pushed();
        let shot = self.shoot_input(input.aim, input.shoot_pressed);
        match shot {
            Some(ev) => self.bullet_spawner(ev),
            None => {},
        }
        let ghost s_post_spawn = *self;
        self.move_bullets(dt_ms);
        let ghost s_pre_hits = *self;
        let events = self.handle_projectile_hits(&input.projectile_hits);
        let ghost s_post_hits = *self;
        proof {
            if spec_input_ids_allocated(*input, old(self).next_id) {
                assert forall|k: int|
                    0 <= k < old(self).projectiles@.len() implies (#[trigger] old(self).projectiles@[k]).id == s_pre_hits.projectiles@[k].id && old(self).projectiles@[k].phase == s_pre_hits.projectiles@[k].phase && old(self).projectiles@[k].damage == s_pre_hits.projectiles@[k].damage by {
                    assert(s_post_spawn.projectiles@[k].id == old(self).projectiles@[k].id);
                }
                assert forall|k: int|
                    old(self).projectiles@.len() <= k < s_pre_hits.projectiles@.len() implies (
                #[trigger] s_pre_hits.projectiles@[k]).id >= old(self).next_id by {
                    assert(s_post_spawn.projectiles@[k].id >= old(self).next_id);
                }
                lemma_hits_outcome_congruent(
                    old(self).projectiles@,
                    s_pre_hits.projectiles@,
                    old(self).enemies@,
                    old(self).hit_log@,
                    Seq::<EntityEvent>::empty(),
                    input.projectile_hits@,
                    old(self).next_id,
                );
            }
        }
        self.tick_shot(dt_ms);
        self.expire_bullets(dt_ms);
        proof {
            if spec_input_ids_allocated(*input, old(self).next_id) {
                assert forall|j: int|
                    0 <= j < input.projectile_hits@.len() && spec_has_projectile(
                        old(self).projectiles@,
                        (#[trigger] input.projectile_hits@[j]).projectile,
                    ) && old(self).projectiles@[spec_projectile_index(
                        old(self).projectiles@,
                        input.projectile_hits@[j].projectile,
                    )].phase == ProjectilePhase::Active && spec_has_enemy(
                        old(self).enemies@,
                        input.projectile_hits@[j].target,
                    ) implies self.projectiles@[spec_projectile_index(
                    old(self).projectiles@,
                    input.projectile_hits@[j].projectile,
                )].phase != ProjectilePhase::Active by {
                    let pid = input.projectile_hits@[j].projectile;
                    let jidx = spec_projectile_index(old(self).projectiles@, pid);
                    assert(0 <= jidx < old(self).projectiles@.len() && old(self).projectiles@[jidx].id == pid);
                    assert(s_pre_hits.projectiles@[jidx].id == pid);
                    lemma_projectile_lookup(
                        s_pre_hits.projectiles@,
                        pid,
                        jidx,
                        s_pre_hits.next_id,
                    );
                    assert(spec_has_enemy(s_pre_hits.enemies@, input.projectile_hits@[j].target));
                    assert(s_post_hits.projectiles@[jidx].phase != ProjectilePhase::Active);
                }
            }
        }
        events
    }

    #[verifier::rlimit(100)]
    pub fn tick(&mut self, input: &TickInput) -> (events: Vec<EntityEvent>)
        requires
            old(self).inv(),
            input.wf(),
            old(self).next_id as int + 2 * input.projectile_hits@.len() + 2 <= u64::MAX as int,
        ensures
            final(self).inv(),
            final(self).elapsed_ms == (if old(self).elapsed_ms + input.dt_ms <= u64::MAX {
                old(self).elapsed_ms + input.dt_ms
            } else {
                u64::MAX as int
            }),
            final(self).level.cur_level >= old(self).level.cur_level,
            final(self).level.next_level_threshold >= old(self).level.next_level_threshold,
            final(self).player.health.max_hp == old(self).player.health.max_hp,
            old(self).hit_log@.is_prefix_of(final(self).hit_log@),
            // progression: exactly the reported experience pickups are
            // collected from the store as it stood, then one leveling check
            final(self).level == spec_level_after_xp(
                old(self).level,
                old(self).pickups@,
                input.xp_contacts@,
            ).leveled(),
            // the player's health and invulnerability, for input naming
            // allocated ids only: contact damage under the invulnerability
            // rule, then the reported healing pickups
            spec_input_ids_allocated(*input, old(self).next_id) ==> ({
                let dmg = spec_contact_damage_applies(*old(self), input.enemy_touches@);
                let gated = if dmg {
                    old(self).player.health.damaged(CONTACT_DAMAGE)
                } else {
                    old(self).player.health
                };
                &&& final(self).player.health == spec_health_after_heals(
                    gated,
                    spec_xp_pickups_after(old(self).pickups@, input.xp_contacts@),
                    input.heal_contacts@,
                )
                &&& final(self).player.invuln == spec_invuln_after_tick(
                    *old(self),
                    dmg,
                    input.dt_ms,
                )
                &&& final(self).hit_log@ == spec_hits_outcome(
                    old(self).projectiles@,
                    old(self).enemies@,
                    old(self).hit_log@,
                    Seq::<EntityEvent>::empty(),
                    input.projectile_hits@,
                ).2
                &&& events@ == spec_hits_outcome(
                    old(self).projectiles@,
                    old(self).enemies@,
                    old(self).hit_log@,
                    Seq::<EntityEvent>::empty(),
                    input.projectile_hits@,
                ).3 + spec_contact_events(*old(self), dmg) + spec_healed_events(
                    spec_heals_collected(
                        spec_xp_pickups_after(old(self).pickups@, input.xp_contacts@),
                        input.heal_contacts@,
                    ),
                )
                // a reported hit whose projectile was active and whose
                // target existed leaves no projectile with that id alive
                &&& forall|j: int|
                    0 <= j < input.projectile_hits@.len() && spec_has_projectile(
                        old(self).projectiles@,
                        (#[trigger] input.projectile_hits@[j]).projectile,
                    ) && old(self).projectiles@[spec_projectile_index(
                        old(self).projectiles@,
                        input.projectile_hits@[j].projectile,
                    )].phase == ProjectilePhase::Active && spec_has_enemy(
                        old(self).enemies@,
                        input.projectile_hits@[j].target,
                    ) ==> !spec_has_projectile(
                        final(self).projectiles@,
                        input.projectile_hits@[j].projectile,
                    )
            }),
            // the spawn countdown: a spawn is due exactly when it
            // finishes, consuming one entity id, and the same tick redraws
            // it for the next spawn
            ({
                let due = old(self).spawner.timer.elapsed_ms + input.dt_ms
                    >= old(self).spawner.timer.duration_ms;
                let fired = input.shoot_pressed && old(self).player.shoot_cooldown is None
                    && input.aim != old(self).player.pos;
                &&& final(self).spawner.min_delay_ms == old(self).spawner.min_delay_ms
                &&& final(self).spawner.max_delay_ms == old(self).spawner.max_delay_ms
                &&& !due ==> final(self).spawner.timer == old(self).spawner.timer.ticked(
                    input.dt_ms,
                )
                &&& due ==> final(self).spawner.timer.elapsed_ms == 0 && final(self).next_id
                    >= old(self).next_id + 1 + (if fired {
                    1int
                } else {
                    0int
                })
            }),
    {
        let dt_ms = input.dt_ms;
        if dt_ms <= u64::MAX - self.elapsed_ms {
            self.elapsed_ms = self.elapsed_ms + dt_ms;
        } else {
            self.elapsed_ms = u64::MAX;
        }
        let mut events = self.resolve_combat(input);
        let ghost s_combat = *self;
        let spawned = self.spawn_enemies(dt_ms);
        self.update_spawner_timer();
        let ghost s_pre_contact = *self;
        let touches = self.emit_player_contact_events(&input.enemy_touches);
        proof {
            assert forall|k: int|
                0 <= k < old(self).enemies@.len() implies k < s_pre_contact.enemies@.len() && (
            #[trigger] s_pre_contact.enemies@[k]).id == old(self).enemies@[k].id by {
                if spawned {
                    assert(s_pre_contact.enemies@.take(s_pre_contact.enemies@.len() - 1)[k]
                        == s_pre_contact.enemies@[k]);
                }
            }
            if spec_input_ids_allocated(*input, old(self).next_id) {
                lemma_touch_decision(
                    *old(self),
                    s_pre_contact,
                    input.enemy_touches@,
                    touches@,
                );
            }
        }
        let mut player_events = self.handle_enemy_collisions(&touches, dt_ms);
        let ghost pe = player_events@;
        self.move_enemies_system(dt_ms);
        self.blink_system(dt_ms);
        self.collect_xp_system(&input.xp_contacts);
        self.update_level_system();
        let mut heal_events = self.collect_healing_system(&input.heal_contacts);
        let ghost he = heal_events@;
        self.enemy_on_dead_system(&events);
        self.apply_movement_damping();
        let ghost s_preflush = *self;
        self.flush_projectiles();
        let ghost s_postflush = *self;
        self.integrate_positions(dt_ms);
        proof {
            if spec_input_ids_allocated(*input, old(self).next_id) {
                assert forall|j: int|
                    0 <= j < input.projectile_hits@.len() && spec_has_projectile(
                        old(self).projectiles@,
                        (#[trigger] input.projectile_hits@[j]).projectile,
                    ) && old(self).projectiles@[spec_projectile_index(
                        old(self).projectiles@,
                        input.projectile_hits@[j].projectile,
                    )].phase == ProjectilePhase::Active && spec_has_enemy(
                        old(self).enemies@,
                        input.projectile_hits@[j].target,
                    ) implies !spec_has_projectile(
                    self.projectiles@,
                    input.projectile_hits@[j].projectile,
                ) by {
                    let pid = input.projectile_hits@[j].projectile;
                    let jidx = spec_projectile_index(old(self).projectiles@, pid);
                    assert(0 <= jidx < old(self).projectiles@.len());
                    assert(s_combat.projectiles@[jidx].id == pid);
                    assert(s_combat.projectiles@[jidx].phase != ProjectilePhase::Active);
                    assert(s_preflush.projectiles@ == s_combat.projectiles@);
                    if spec_has_projectile(s_postflush.projectiles@, pid) {
                        let w = choose|k: int|
                            0 <= k < s_postflush.projectiles@.len()
                                && s_postflush.projectiles@[k].id == pid;
                        assert(s_postflush.projectiles@[w].phase == ProjectilePhase::Active);
                        assert(s_preflush.projectiles@.contains(s_postflush.projectiles@[w]));
                        let j2 = choose|k: int|
                            0 <= k < s_preflush.projectiles@.len() && s_preflush.projectiles@[k]
                                == s_postflush.projectiles@[w];
                        if j2 < jidx {
                            assert(s_preflush.projectiles@[j2].id
                                != s_preflush.projectiles@[jidx].id);
                        }
                        if jidx < j2 {
                            assert(s_preflush.projectiles@[jidx].id
                                != s_preflush.projectiles@[j2].id);
                        }
                        assert(false);
                    }
                    if spec_has_projectile(self.projectiles@, pid) {
                        let w = choose|k: int|
                            0 <= k < self.projectiles@.len() && self.projectiles@[k].id == pid;
                        assert(s_postflush.projectiles@[w].id == pid);
                        assert(spec_has_projectile(s_postflush.projectiles@, pid));
                    }
                }
            }
        }
        events.append(&mut player_events);
        events.append(&mut heal_events);
        proof {
            if spec_input_ids_allocated(*input, old(self).next_id) {
                let dmg = spec_contact_damage_applies(*old(self), input.enemy_touches@);
                assert(pe =~= spec_contact_events(*old(self), dmg));
                assert(he =~= spec_healed_events(
                    spec_heals_collected(
                        spec_xp_pickups_after(old(self).pickups@, input.xp_contacts@),
                        input.heal_contacts@,
                    ),
                ));
            }
        }
        events
    }


    /// The visibility the renderer should draw the player with: hidden
    /// only on the dark half of a blink period.
    pub fn player_visible(&self) -> (r: bool)
        ensures
            r == self.player.spec_visible(),
    {
        match &self.player.invuln {
            Some(b) => b.visible,
            None => true,
        }
    }

    /// Look a pickup up by its id; `None` when it is gone.
    pub fn find_pickup(&self, id: u64) -> (r: Option<usize>)
        requires
            self.inv(),
        ensures
            (r is Some) <==> spec_has_pickup(self.pickups@, id),
            match r {
                Some(i) => i < self.pickups@.len() && self.pickups@[i as int].id == id && i as int
                    == spec_pickup_index(self.pickups@, id),
                None => true,
            },
    {
        let n = self.pickups.len();
        let mut i: usize = 0;
        while i < n
            invariant
                self.inv(),
                i <= n,
                n == self.pickups@.len(),
                forall|k: int| 0 <= k < i ==> (#[trigger] self.pickups@[k]).id != id,
            decreases n - i,
        {
            if self.pickups[i].id == id {
                return Some(i);
            }
            i = i + 1;
        }
        None
    }

    /// Which pickup kind a weighting roll selects: of the hundred
    /// equally likely rolls, zero through eighty-nine drop experience and
    /// the remaining ten drop healing.
    pub fn crumb_kind_for_roll(roll: u64) -> (kind: PickupKind)
        ensures
            kind == (if roll < 90 {
                PickupKind::XpCrumb
            } else {
                PickupKind::HealingCrumb
            }),
    {
        if roll < 90 {
            PickupKind::XpCrumb
        } else {
            PickupKind::HealingCrumb
        }
    }

    /// Drop one pickup at the given position: nine times in ten an
    /// experience crumb, otherwise a healing crumb, each carrying its
    /// fixed value.
    pub fn spawn_crumb(&mut self, pos: Vec2i)
        requires
            old(self).inv(),
            old(self).next_id < u64::MAX,
            pos.bounded(POS_LIMIT as int),
        ensures
            final(self).inv(),
            final(self).next_id == old(self).next_id + 1,
            final(self).pickups@.len() == old(self).pickups@.len() + 1,
            final(self).pickups@.take(old(self).pickups@.len() as int) == old(self).pickups@,
            ({
                let p = final(self).pickups@.last();
                &&& p.id == old(self).next_id
                &&& p.pos == pos
                &&& crumb_valid(p)
            }),
            final(self).player == old(self).player,
            final(self).enemies@ == old(self).enemies@,
            final(self).projectiles@ == old(self).projectiles@,
            final(self).level == old(self).level,
            final(self).spawner == old(self).spawner,
            final(self).elapsed_ms == old(self).elapsed_ms,
            final(self).hit_log@ == old(self).hit_log@,
    {
        let roll = crate::rng::gen_range_u64(0, 100);
        let kind = Self::crumb_kind_for_roll(roll);
        let id = self.next_id;
        self.next_id = self.next_id + 1;
        let value = if matches!(kind, PickupKind::XpCrumb) {
            XP_CRUMB_VALUE
        } else {
            HEAL_CRUMB_AMOUNT
        };
        self.pickups.push(PickupState { id, pos, kind, value });
        proof {
            assert(self.pickups@.take(old(self).pickups@.len() as int) =~= old(self).pickups@);
        }
    }

    /// Consume this tick's enemy died events: each names an enemy that is
    /// removed from the store, dropping exactly one pickup at the place it
    /// died; an enemy already gone is a recoverable no-op.
    pub fn enemy_on_dead_system(&mut self, events: &Vec<EntityEvent>)
        requires
            old(self).inv(),
            old(self).next_id as int + events@.len() <= u64::MAX as int,
        ensures
            final(self).inv(),
            final(self).player == old(self).player,
            final(self).projectiles@ == old(self).projectiles@,
            final(self).level == old(self).level,
            final(self).spawner == old(self).spawner,
            final(self).elapsed_ms == old(self).elapsed_ms,
            final(self).hit_log@ == old(self).hit_log@,
            old(self).next_id <= final(self).next_id,
            // every enemy named by a died event is gone
            forall|e: int|
                0 <= e < events@.len() && (#[trigger] events@[e]).kind == EntityKind::Enemy
                    && events@[e].event == EventKind::Died ==> !spec_has_enemy(
                    final(self).enemies@,
                    events@[e].entity,
                ),
            // enemies were only removed, never changed or added
            forall|k: int|
                0 <= k < final(self).enemies@.len() ==> old(self).enemies@.contains(
                    #[trigger] final(self).enemies@[k],
                ),
            // pickups were only appended, one valid crumb per removal
            old(self).pickups@.is_prefix_of(final(self).pickups@),
            forall|k: int|
                old(self).pickups@.len() <= k < final(self).pickups@.len() ==> crumb_valid(
                    #[trigger] final(self).pickups@[k],
                ),
            final(self).pickups@.len() - old(self).pickups@.len() == old(self).enemies@.len()
                - final(self).enemies@.len(),
            // exactly the named, still-present enemies are removed, and
            // each drops its one crumb where it died
            final(self).enemies@ == spec_enemies_after_deaths(old(self).enemies@, events@),
            final(self).pickups@.len() == old(self).pickups@.len() + spec_death_positions(
                old(self).enemies@,
                events@,
            ).len(),
            final(self).next_id == old(self).next_id + spec_death_positions(
                old(self).enemies@,
                events@,
            ).len(),
            forall|k: int|
                0 <= k < spec_death_positions(old(self).enemies@, events@).len()
                    ==> (#[trigger] final(self).pickups@[old(self).pickups@.len() + k]).pos
                    == spec_death_positions(old(self).enemies@, events@)[k] && final(self).pickups@[old(self).pickups@.len() + k].id == old(self).next_id + k,
    {
        let n = events.len();
        let mut i: usize = 0;
        let ghost mut dropped: Seq<Vec2i> = Seq::empty();
        proof {
            assert(events@.skip(0) =~= events@);
            assert(dropped + spec_death_positions(self.enemies@, events@) =~= spec_death_positions(
                self.enemies@,
                events@,
            ));
        }
        while i < n
            invariant
                old(self).inv(),
                self.inv(),
                i <= n,
                n == events@.len(),
                self.player == old(self).player,
                self.projectiles@ == old(self).projectiles@,
                self.level == old(self).level,
                self.spawner == old(self).spawner,
                self.elapsed_ms == old(self).elapsed_ms,
                self.hit_log@ == old(self).hit_log@,
                old(self).next_id <= self.next_id,
                self.next_id as int <= old(self).next_id as int + i,
                old(self).next_id as int + n <= u64::MAX as int,
                spec_enemies_after_deaths(old(self).enemies@, events@)
                    == spec_enemies_after_deaths(self.enemies@, events@.skip(i as int)),
                spec_death_positions(old(self).enemies@, events@) == dropped
                    + spec_death_positions(self.enemies@, events@.skip(i as int)),
                dropped.len() <= i,
                self.pickups@.len() == old(self).pickups@.len() + dropped.len(),
                self.next_id == old(self).next_id + dropped.len(),
                forall|k: int|
                    0 <= k < dropped.len() ==> (#[trigger] self.pickups@[old(self).pickups@.len()
                        + k]).pos == dropped[k] && self.pickups@[old(self).pickups@.len() + k].id
                        == old(self).next_id + k,
                forall|e: int|
                    0 <= e < i && (#[trigger] events@[e]).kind == EntityKind::Enemy
                        && events@[e].event == EventKind::Died ==> !spec_has_enemy(
                        self.enemies@,
                        events@[e].entity,
                    ),
                forall|k: int|
                    0 <= k < self.enemies@.len() ==> old(self).enemies@.contains(
                        #[trigger] self.enemies@[k],
                    ),
                old(self).pickups@.is_prefix_of(self.pickups@),
                forall|k: int|
                    old(self).pickups@.len() <= k < self.pickups@.len() ==> crumb_valid(
                        #[trigger] self.pickups@[k],
                    ),
                self.pickups@.len() - old(self).pickups@.len() == old(self).enemies@.len()
                    - self.enemies@.len(),
            decreases n - i,
        {
            let ev = events[i];
            let ghost entry = *self;
            let ghost dropped0 = dropped;
            proof {
                lemma_skip_one(events@, i as int);
            }
            let is_enemy_death = matches!(ev.kind, EntityKind::Enemy) && matches!(
                ev.event,
                EventKind::Died,
            );
            if is_enemy_death {
                match self.find_enemy(ev.entity) {
                    Some(ei) => {
                        let ghost pre = *self;
                        let pos = self.enemies[ei].pos;
                        self.enemies.remove(ei);
                        proof {
                            lemma_enemy_remove(
                                pre.enemies@,
                                self.enemies@,
                                ei as int,
                                self.next_id,
                            );
                        }
                        self.spawn_crumb(pos);
                        proof {
                            dropped = dropped.push(pos);
                            assert(spec_enemies_after_deaths(entry.enemies@, events@.skip(i as int))
                                == spec_enemies_after_deaths(
                                self.enemies@,
                                events@.skip(i as int + 1),
                            ));
                            assert(spec_death_positions(entry.enemies@, events@.skip(i as int))
                                =~= seq![pos] + spec_death_positions(
                                self.enemies@,
                                events@.skip(i as int + 1),
                            ));
                            assert(dropped0 + (seq![pos] + spec_death_positions(
                                self.enemies@,
                                events@.skip(i as int + 1),
                            )) =~= dropped + spec_death_positions(
                                self.enemies@,
                                events@.skip(i as int + 1),
                            ));
                            lemma_gone_enemies_stay_gone(pre.enemies@, self.enemies@, events@, i as int);
                            let prepk = pre.pickups@;
                            assert forall|k: int| 0 <= k < prepk.len() implies self.pickups@[k]
                                == prepk[k] by {
                                assert(self.pickups@.take(prepk.len() as int)[k]
                                    == self.pickups@[k]);
                            }
                            assert(old(self).pickups@.is_prefix_of(self.pickups@)) by {
                                assert(old(self).pickups@ =~= self.pickups@.subrange(
                                    0,
                                    old(self).pickups@.len() as int,
                                ));
                            }
                            assert forall|k: int|
                                old(self).pickups@.len() <= k < self.pickups@.len() implies
                                crumb_valid(#[trigger] self.pickups@[k]) by {
                                if k < prepk.len() {
                                    assert(self.pickups@[k] == prepk[k]);
                                } else {
                                    assert(self.pickups@[k] == self.pickups@.last());
                                }
                            }
                            assert forall|k: int|
                                0 <= k < dropped.len() implies (#[trigger] self.pickups@[old(self).pickups@.len() + k]).pos == dropped[k] && self.pickups@[old(self).pickups@.len() + k].id == old(self).next_id + k by {
                                if k < dropped0.len() {
                                    assert(self.pickups@[old(self).pickups@.len() + k]
                                        == prepk[old(self).pickups@.len() + k]);
                                } else {
                                    assert(self.pickups@[old(self).pickups@.len() + k]
                                        == self.pickups@.last());
                                }
                            }
                        }
                    },
                    None => {
                        proof {
                            assert(!spec_has_enemy(entry.enemies@, ev.entity));
                        }
                    },
                }
            } else {
                proof {
                    assert(!(ev.kind == EntityKind::Enemy && ev.event == EventKind::Died));
                }
            }
            i = i + 1;
        }
        proof {
            assert(events@.skip(n as int).len() == 0);
            assert(spec_death_positions(old(self).enemies@, events@) == dropped
                + spec_death_positions(self.enemies@, events@.skip(n as int)));
            assert(spec_death_positions(self.enemies@, events@.skip(n as int)) =~= Seq::<
                Vec2i,
            >::empty());
            assert(spec_death_positions(old(self).enemies@, events@) =~= dropped);
        }
    }

    /// Collect every reported experience pickup: its value feeds the
    /// player's accumulated experience and the pickup despawns; a healing
    /// pickup or a pickup already gone is left alone.
    pub fn collect_xp_system(&mut self, contacts: &Vec<u64>)
        requires
            old(self).inv(),
        ensures
            final(self).inv(),
            final(self).player == old(self).player,
            final(self).enemies@ == old(self).enemies@,
            final(self).projectiles@ == old(self).projectiles@,
            final(self).spawner == old(self).spawner,
            final(self).elapsed_ms == old(self).elapsed_ms,
            final(self).next_id == old(self).next_id,
            final(self).hit_log@ == old(self).hit_log@,
            final(self).level.cur_level == old(self).level.cur_level,
            final(self).level.next_level_threshold == old(self).level.next_level_threshold,
            final(self).level.cur_xp >= old(self).level.cur_xp,
            // exactly the reported experience pickups are collected, in
            // order, and their values accumulate
            final(self).level == spec_level_after_xp(
                old(self).level,
                old(self).pickups@,
                contacts@,
            ),
            final(self).pickups@ == spec_xp_pickups_after(old(self).pickups@, contacts@),
            // pickups were only removed
            forall|k: int|
                0 <= k < final(self).pickups@.len() ==> old(self).pickups@.contains(
                    #[trigger] final(self).pickups@[k],
                ),
            // no reported experience pickup survives the pass
            forall|j: int|
                0 <= j < contacts@.len() ==> !xp_pickup_live(
                    final(self).pickups@,
                    #[trigger] contacts@[j],
                ),
    {
        let n = contacts.len();
        let mut i: usize = 0;
        proof {
            assert(contacts@.skip(0) =~= contacts@);
        }
        while i < n
            invariant
                old(self).inv(),
                self.inv(),
                i <= n,
                n == contacts@.len(),
                self.player == old(self).player,
                self.enemies@ == old(self).enemies@,
                self.projectiles@ == old(self).projectiles@,
                self.spawner == old(self).spawner,
                self.elapsed_ms == old(self).elapsed_ms,
                self.next_id == old(self).next_id,
                self.hit_log@ == old(self).hit_log@,
                self.level.cur_level == old(self).level.cur_level,
                self.level.next_level_threshold == old(self).level.next_level_threshold,
                self.level.cur_xp >= old(self).level.cur_xp,
                spec_level_after_xp(old(self).level, old(self).pickups@, contacts@)
                    == spec_level_after_xp(self.level, self.pickups@, contacts@.skip(i as int)),
                spec_xp_pickups_after(old(self).pickups@, contacts@) == spec_xp_pickups_after(
                    self.pickups@,
                    contacts@.skip(i as int),
                ),
                forall|k: int|
                    0 <= k < self.pickups@.len() ==> old(self).pickups@.contains(
                        #[trigger] self.pickups@[k],
                    ),
                forall|j: int|
                    0 <= j < i ==> !xp_pickup_live(self.pickups@, #[trigger] contacts@[j]),
            decreases n - i,
        {
            let id = contacts[i];
            let ghost entry = *self;
            proof {
                lemma_skip_one(contacts@, i as int);
            }
            match self.find_pickup(id) {
                Some(pi) => {
                    let p = self.pickups[pi];
                    proof {
                        lemma_pickup_lookup(self.pickups@, id, pi as int, self.next_id);
                    }
                    if matches!(p.kind, PickupKind::XpCrumb) {
                        let ghost pre = *self;
                        self.level.add_xp(p.value as u64);
                        self.pickups.remove(pi);
                        proof {
                            lemma_pickup_remove(
                                pre.pickups@,
                                self.pickups@,
                                pi as int,
                                self.next_id,
                            );
                            lemma_gone_pickup_kind_stays_gone(
                                pre.pickups@,
                                self.pickups@,
                                contacts@,
                                i as int,
                                PickupKind::XpCrumb,
                                self.next_id,
                            );
                            assert(xp_pickup_live(entry.pickups@, id));
                            assert(spec_level_after_xp(
                                entry.level,
                                entry.pickups@,
                                contacts@.skip(i as int),
                            ) == spec_level_after_xp(
                                self.level,
                                self.pickups@,
                                contacts@.skip(i as int + 1),
                            ));
                        }
                    } else {
                        proof {
                            assert(!xp_pickup_live(entry.pickups@, id));
                        }
                    }
                },
                None => {
                    proof {
                        assert(!xp_pickup_live(entry.pickups@, id));
                    }
                },
            }
            i = i + 1;
        }
        proof {
            assert(contacts@.skip(n as int).len() == 0);
        }
    }

    /// Run the per-tick leveling check on the progression tracker.
    pub fn update_level_system(&mut self) -> (leveled_up: bool)
        requires
            old(self).inv(),
        ensures
            final(self).inv(),
            final(self).level == old(self).level.leveled(),
            leveled_up == (old(self).level.cur_xp >= old(self).level.next_level_threshold),
            final(self).player == old(self).player,
            final(self).enemies@ == old(self).enemies@,
            final(self).projectiles@ == old(self).projectiles@,
            final(self).pickups@ == old(self).pickups@,
            final(self).spawner == old(self).spawner,
            final(self).elapsed_ms == old(self).elapsed_ms,
            final(self).next_id == old(self).next_id,
            final(self).hit_log@ == old(self).hit_log@,
    {
        self.level.update_level()
    }

    /// Collect every reported healing pickup: it heals the player by its
    /// value and despawns, emitting a healed event; an experience pickup
    /// or a pickup already gone is left alone.
    pub fn collect_healing_system(&mut self, contacts: &Vec<u64>) -> (events: Vec<EntityEvent>)
        requires
            old(self).inv(),
        ensures
            final(self).inv(),
            final(self).enemies@ == old(self).enemies@,
            final(self).projectiles@ == old(self).projectiles@,
            final(self).spawner == old(self).spawner,
            final(self).level == old(self).level,
            final(self).elapsed_ms == old(self).elapsed_ms,
            final(self).next_id == old(self).next_id,
            final(self).hit_log@ == old(self).hit_log@,
            final(self).player == (PlayerState {
                health: final(self).player.health,
                ..old(self).player
            }),
            final(self).player.health.max_hp == old(self).player.health.max_hp,
            final(self).player.health.cur_hp >= old(self).player.health.cur_hp,
            // exactly the reported healing pickups are consumed, in order,
            // and each heals by its value
            final(self).player.health == spec_health_after_heals(
                old(self).player.health,
                old(self).pickups@,
                contacts@,
            ),
            final(self).pickups@ == spec_heal_pickups_after(old(self).pickups@, contacts@),
            forall|k: int|
                0 <= k < final(self).pickups@.len() ==> old(self).pickups@.contains(
                    #[trigger] final(self).pickups@[k],
                ),
            forall|j: int|
                0 <= j < contacts@.len() ==> !healing_pickup_live(
                    final(self).pickups@,
                    #[trigger] contacts@[j],
                ),
            forall|e: int|
                0 <= e < events@.len() ==> (#[trigger] events@[e]) == (EntityEvent {
                    kind: EntityKind::Player,
                    event: EventKind::Healed,
                    entity: 0,
                }),
            // exactly one healed event per collected pickup
            events@.len() == spec_heals_collected(old(self).pickups@, contacts@),
    {
        let mut events: Vec<EntityEvent> = Vec::new();
        let n = contacts.len();
        let mut i: usize = 0;
        proof {
            assert(contacts@.skip(0) =~= contacts@);
        }
        while i < n
            invariant
                old(self).inv(),
                self.inv(),
                i <= n,
                n == contacts@.len(),
                self.enemies@ == old(self).enemies@,
                self.projectiles@ == old(self).projectiles@,
                self.spawner == old(self).spawner,
                self.level == old(self).level,
                self.elapsed_ms == old(self).elapsed_ms,
                self.next_id == old(self).next_id,
                self.hit_log@ == old(self).hit_log@,
                self.player == (PlayerState { health: self.player.health, ..old(self).player }),
                self.player.health.max_hp == old(self).player.health.max_hp,
                self.player.health.cur_hp >= old(self).player.health.cur_hp,
                spec_health_after_heals(old(self).player.health, old(self).pickups@, contacts@)
                    == spec_health_after_heals(
                    self.player.health,
                    self.pickups@,
                    contacts@.skip(i as int),
                ),
                spec_heal_pickups_after(old(self).pickups@, contacts@) == spec_heal_pickups_after(
                    self.pickups@,
                    contacts@.skip(i as int),
                ),
                forall|k: int|
                    0 <= k < self.pickups@.len() ==> old(self).pickups@.contains(
                        #[trigger] self.pickups@[k],
                    ),
                forall|j: int|
                    0 <= j < i ==> !healing_pickup_live(self.pickups@, #[trigger] contacts@[j]),
                forall|e: int|
                    0 <= e < events@.len() ==> (#[trigger] events@[e]) == (EntityEvent {
                        kind: EntityKind::Player,
                        event: EventKind::Healed,
                        entity: 0,
                    }),
                spec_heals_collected(old(self).pickups@, contacts@) == events@.len()
                    + spec_heals_collected(self.pickups@, contacts@.skip(i as int)),
            decreases n - i,
        {
            let id = contacts[i];
            let ghost entry = *self;
            proof {
                lemma_skip_one(contacts@, i as int);
            }
            match self.find_pickup(id) {
                Some(pi) => {
                    let p = self.pickups[pi];
                    proof {
                        lemma_pickup_lookup(self.pickups@, id, pi as int, self.next_id);
                    }
                    if matches!(p.kind, PickupKind::HealingCrumb) {
                        let ghost pre = *self;
                        self.player.health.heal(p.value);
                        events.push(EntityEvent::new(EntityKind::Player, EventKind::Healed, 0));
                        self.pickups.remove(pi);
                        proof {
                            lemma_pickup_remove(
                                pre.pickups@,
                                self.pickups@,
                                pi as int,
                                self.next_id,
                            );
                            lemma_gone_pickup_kind_stays_gone(
                                pre.pickups@,
                                self.pickups@,
                                contacts@,
                                i as int,
                                PickupKind::HealingCrumb,
                                self.next_id,
                            );
                            assert(healing_pickup_live(entry.pickups@, id));
                            assert(spec_health_after_heals(
                                entry.player.health,
                                entry.pickups@,
                                contacts@.skip(i as int),
                            ) == spec_health_after_heals(
                                self.player.health,
                                self.pickups@,
                                contacts@.skip(i as int + 1),
                            ));
                        }
                    } else {
                        proof {
                            assert(!healing_pickup_live(entry.pickups@, id));
                        }
                    }
                },
                None => {
                    proof {
                        assert(!healing_pickup_live(entry.pickups@, id));
                    }
                },
            }
            i = i + 1;
        }
        proof {
            assert(contacts@.skip(n as int).len() == 0);
        }
        events
    }

    /// The end-of-tick command flush for projectiles: consumed and expired
    /// ones are removed; exactly the active ones remain.
    pub fn flush_projectiles(&mut self)
        requires
            old(self).inv(),
        ensures
            final(self).inv(),
            final(self).player == old(self).player,
            final(self).enemies@ == old(self).enemies@,
            final(self).pickups@ == old(self).pickups@,
            final(self).level == old(self).level,
            final(self).spawner == old(self).spawner,
            final(self).elapsed_ms == old(self).elapsed_ms,
            final(self).next_id == old(self).next_id,
            final(self).hit_log@ == old(self).hit_log@,
            forall|k: int|
                0 <= k < final(self).projectiles@.len() ==> (#[trigger] final(self).projectiles@[k]).phase == ProjectilePhase::Active && old(self).projectiles@.contains(final(self).projectiles@[k]),
            forall|j: int|
                0 <= j < old(self).projectiles@.len() && (#[trigger] old(self).projectiles@[j]).phase == ProjectilePhase::Active ==> final(self).projectiles@.contains(old(self).projectiles@[j]),
    {
        let mut kept: Vec<ProjectileState> = Vec::new();
        let n = self.projectiles.len();
        let mut i: usize = 0;
        while i < n
            invariant
                old(self).inv(),
                *self == *old(self),
                i <= n,
                n == self.projectiles@.len(),
                forall|k: int|
                    0 <= k < kept@.len() ==> exists|j: int|
                        0 <= j < i && self.projectiles@[j] == #[trigger] kept@[k],
                forall|k: int|
                    0 <= k < kept@.len() ==> (#[trigger] kept@[k]).phase == ProjectilePhase::Active,
                forall|j: int|
                    0 <= j < i && (#[trigger] self.projectiles@[j]).phase == ProjectilePhase::Active
                        ==> kept@.contains(self.projectiles@[j]),
                forall|k: int, l: int| 0 <= k < l < kept@.len() ==> kept@[k].id != kept@[l].id,
            decreases n - i,
        {
            let p = self.projectiles[i];
            if matches!(p.phase, ProjectilePhase::Active) {
                let ghost kept0 = kept@;
                kept.push(p);
                proof {
                    assert forall|k: int, l: int|
                        0 <= k < l < kept@.len() implies kept@[k].id != kept@[l].id by {
                        if l == kept@.len() - 1 {
                            let j = choose|j: int|
                                0 <= j < i && self.projectiles@[j] == kept0[k];
                            assert(self.projectiles@[j].id != self.projectiles@[i as int].id);
                        }
                    }
                    assert forall|j: int|
                        0 <= j < i + 1 && (#[trigger] self.projectiles@[j]).phase
                            == ProjectilePhase::Active implies kept@.contains(
                        self.projectiles@[j],
                    ) by {
                        if j < i {
                            let w = choose|k: int| 0 <= k < kept0.len() && kept0[k] == self.projectiles@[j];
                            assert(kept@[w] == self.projectiles@[j]);
                        } else {
                            assert(kept@[kept@.len() - 1] == self.projectiles@[j]);
                        }
                    }
                }
            }
            i = i + 1;
        }
        self.projectiles = kept;
        proof {
            assert forall|k: int|
                0 <= k < self.projectiles@.len() implies old(self).projectiles@.contains(
                #[trigger] self.projectiles@[k],
            ) by {
                let j = choose|j: int|
                    0 <= j < old(self).projectiles@.len() && old(self).projectiles@[j]
                        == self.projectiles@[k];
            }
            assert forall|k: int|
                0 <= k < self.projectiles@.len() implies (#[trigger] self.projectiles@[k]).wf()
                && self.projectiles@[k].id < self.next_id && ((self.projectiles@[k]).phase
                == ProjectilePhase::Consumed <==> self.hit_log@.contains(
                self.projectiles@[k].id,
            )) by {
                let j = choose|j: int|
                    0 <= j < old(self).projectiles@.len() && old(self).projectiles@[j]
                        == self.projectiles@[k];
                assert(old(self).projectiles@[j].wf());
            }
        }
    }

    /// The physics stand-in: integrate every entity's velocity into its
    /// position over the frame time, clamped into the arena. The real
    /// collaborator also resolves overlaps, which come back as the next
    /// tick's input.
    pub fn integrate_positions(&mut self, dt_ms: u64)
        requires
            old(self).inv(),
            0 < dt_ms <= 60000,
        ensures
            final(self).inv(),
            final(self).player == (PlayerState { pos: final(self).player.pos, ..old(self).player }),
            final(self).player.pos.x == spec_integrated(
                old(self).player.pos.x as int,
                old(self).player.vel.x as int,
                dt_ms,
            ),
            final(self).player.pos.y == spec_integrated(
                old(self).player.pos.y as int,
                old(self).player.vel.y as int,
                dt_ms,
            ),
            final(self).enemies@.len() == old(self).enemies@.len(),
            forall|k: int|
                0 <= k < old(self).enemies@.len() ==> #[trigger] final(self).enemies@[k]
                    == (EnemyState { pos: final(self).enemies@[k].pos, ..old(self).enemies@[k] })
                    && final(self).enemies@[k].pos.x == spec_integrated(
                    old(self).enemies@[k].pos.x as int,
                    old(self).enemies@[k].vel.x as int,
                    dt_ms,
                ) && final(self).enemies@[k].pos.y == spec_integrated(
                    old(self).enemies@[k].pos.y as int,
                    old(self).enemies@[k].vel.y as int,
                    dt_ms,
                ),
            final(self).projectiles@.len() == old(self).projectiles@.len(),
            forall|k: int|
                0 <= k < old(self).projectiles@.len() ==> #[trigger] final(self).projectiles@[k]
                    == (ProjectileState {
                    pos: final(self).projectiles@[k].pos,
                    ..old(self).projectiles@[k]
                }) && final(self).projectiles@[k].pos.x == spec_integrated(
                    old(self).projectiles@[k].pos.x as int,
                    old(self).projectiles@[k].vel.x as int,
                    dt_ms,
                ) && final(self).projectiles@[k].pos.y == spec_integrated(
                    old(self).projectiles@[k].pos.y as int,
                    old(self).projectiles@[k].vel.y as int,
                    dt_ms,
                ),
            final(self).pickups@ == old(self).pickups@,
            final(self).level == old(self).level,
            final(self).spawner == old(self).spawner,
            final(self).elapsed_ms == old(self).elapsed_ms,
            final(self).next_id == old(self).next_id,
            final(self).hit_log@ == old(self).hit_log@,
    {
        let dvx = mul_div_trunc(self.player.vel.x, dt_ms as i64, 1000);
        let dvy = mul_div_trunc(self.player.vel.y, dt_ms as i64, 1000);
        self.player.pos = self.player.pos.add_clamped(Vec2i { x: dvx, y: dvy }, POS_LIMIT);
        let n = self.enemies.len();
        let mut i: usize = 0;
        while i < n
            invariant
                old(self).inv(),
                0 < dt_ms <= 60000,
                i <= n,
                n == self.enemies@.len(),
                n == old(self).enemies@.len(),
                forall|k: int| i <= k < n ==> #[trigger] self.enemies@[k] == old(self).enemies@[k],
                forall|k: int|
                    0 <= k < i ==> #[trigger] self.enemies@[k] == (EnemyState {
                        pos: self.enemies@[k].pos,
                        ..old(self).enemies@[k]
                    }) && self.enemies@[k].pos.x == spec_integrated(
                        old(self).enemies@[k].pos.x as int,
                        old(self).enemies@[k].vel.x as int,
                        dt_ms,
                    ) && self.enemies@[k].pos.y == spec_integrated(
                        old(self).enemies@[k].pos.y as int,
                        old(self).enemies@[k].vel.y as int,
                        dt_ms,
                    ),
                forall|k: int| 0 <= k < n ==> (#[trigger] self.enemies@[k]).wf(),
                self.player == (PlayerState { pos: self.player.pos, ..old(self).player }),
                self.player.wf(),
                self.player.pos.x == spec_integrated(
                    old(self).player.pos.x as int,
                    old(self).player.vel.x as int,
                    dt_ms,
                ),
                self.player.pos.y == spec_integrated(
                    old(self).player.pos.y as int,
                    old(self).player.vel.y as int,
                    dt_ms,
                ),
                self.projectiles@ == old(self).projectiles@,
                self.pickups@ == old(self).pickups@,
                self.level == old(self).level,
                self.spawner == old(self).spawner,
                self.elapsed_ms == old(self).elapsed_ms,
                self.next_id == old(self).next_id,
                self.hit_log@ == old(self).hit_log@,
            decreases n - i,
        {
            let mut e = self.enemies[i];
            let dx = mul_div_trunc(e.vel.x, dt_ms as i64, 1000);
            let dy = mul_div_trunc(e.vel.y, dt_ms as i64, 1000);
            e.pos = e.pos.add_clamped(Vec2i { x: dx, y: dy }, POS_LIMIT);
            self.enemies[i] = e;
            i = i + 1;
        }
        let m = self.projectiles.len();
        let mut j: usize = 0;
        while j < m
            invariant
                old(self).inv(),
                0 < dt_ms <= 60000,
                j <= m,
                m == self.projectiles@.len(),
                m == old(self).projectiles@.len(),
                forall|k: int|
                    j <= k < m ==> #[trigger] self.projectiles@[k] == old(self).projectiles@[k],
                forall|k: int|
                    0 <= k < j ==> #[trigger] self.projectiles@[k] == (ProjectileState {
                        pos: self.projectiles@[k].pos,
                        ..old(self).projectiles@[k]
                    }) && self.projectiles@[k].pos.x == spec_integrated(
                        old(self).projectiles@[k].pos.x as int,
                        old(self).projectiles@[k].vel.x as int,
                        dt_ms,
                    ) && self.projectiles@[k].pos.y == spec_integrated(
                        old(self).projectiles@[k].pos.y as int,
                        old(self).projectiles@[k].vel.y as int,
                        dt_ms,
                    ),
                forall|k: int|
                    0 <= k < m ==> (#[trigger] self.projectiles@[k]).wf()
                        && self.projectiles@[k].id == old(self).projectiles@[k].id
                        && (self.projectiles@[k].phase == old(self).projectiles@[k].phase),
                self.enemies@.len() == old(self).enemies@.len(),
                forall|k: int|
                    0 <= k < self.enemies@.len() ==> #[trigger] self.enemies@[k] == (EnemyState {
                        pos: self.enemies@[k].pos,
                        ..old(self).enemies@[k]
                    }) && self.enemies@[k].pos.x == spec_integrated(
                        old(self).enemies@[k].pos.x as int,
                        old(self).enemies@[k].vel.x as int,
                        dt_ms,
                    ) && self.enemies@[k].pos.y == spec_integrated(
                        old(self).enemies@[k].pos.y as int,
                        old(self).enemies@[k].vel.y as int,
                        dt_ms,
                    ) && self.enemies@[k].wf(),
                self.player == (PlayerState { pos: self.player.pos, ..old(self).player }),
                self.player.wf(),
                self.player.pos.x == spec_integrated(
                    old(self).player.pos.x as int,
                    old(self).player.vel.x as int,
                    dt_ms,
                ),
                self.player.pos.y == spec_integrated(
                    old(self).player.pos.y as int,
                    old(self).player.vel.y as int,
                    dt_ms,
                ),
                self.pickups@ == old(self).pickups@,
                self.level == old(self).level,
                self.spawner == old(self).spawner,
                self.elapsed_ms == old(self).elapsed_ms,
                self.next_id == old(self).next_id,
                self.hit_log@ == old(self).hit_log@,
            decreases m - j,
        {
            let mut p = self.projectiles[j];
            let dx = mul_div_trunc(p.vel.x, dt_ms as i64, 1000);
            let dy = mul_div_trunc(p.vel.y, dt_ms as i64, 1000);
            p.pos = p.pos.add_clamped(Vec2i { x: dx, y: dy }, POS_LIMIT);
            self.projectiles[j] = p;
            j = j + 1;
        }
        proof {
            assert(phases_match_log(self.projectiles@, self.hit_log@));
        }
    }
}

/// A velocity component after one tick of movement damping: nine tenths
/// of it, rounded toward zero.
pub open spec fn spec_damped(v: int) -> int {
    spec_div_trunc(v * 9, 10)
}

/// An enemy's velocity component after one chase step: unchanged when it
/// stands on the player, otherwise accelerated toward the player along
/// the unit direction, scaled by the enemy acceleration and the frame
/// time, capped at the speed limit. `horizontal` picks the axis.
pub open spec fn spec_chase_vel(
    player_pos: Vec2i,
    e: EnemyState,
    dt_ms: u64,
    horizontal: bool,
) -> int {
    let dx = player_pos.x - e.pos.x;
    let dy = player_pos.y - e.pos.y;
    if dx == 0 && dy == 0 {
        if horizontal {
            e.vel.x as int
        } else {
            e.vel.y as int
        }
    } else {
        let len = crate::vec2::sqrt_floor(dx * dx + dy * dy);
        let d = if horizontal {
            dx
        } else {
            dy
        };
        let v = if horizontal {
            e.vel.x as int
        } else {
            e.vel.y as int
        };
        spec_clamp(
            v + spec_div_trunc(
                spec_div_trunc(d * 1000, len) * (ENEMY_ACCELERATION as int * dt_ms as int),
                1_000_000,
            ),
            VEL_LIMIT as int,
        )
    }
}

/// The player's queued knockback after resolving the tick's touch
/// events in order: every touch whose enemy is still in the store adds
/// an impulse along the unit direction from that enemy to the player,
/// scaled by the push acceleration and the frame time, accumulated with
/// the speed clamp; a touch whose enemy is gone, or whose enemy stands
/// exactly on the player, adds nothing.
pub open spec fn spec_push_after_touches(
    pushed: Option<Vec2i>,
    player_pos: Vec2i,
    enemies: Seq<EnemyState>,
    touches: Seq<EnemyTouchedPlayerEvent>,
    dt_ms: u64,
) -> Option<Vec2i>
    decreases touches.len(),
{
    if touches.len() == 0 {
        pushed
    } else {
        let t = touches[0];
        if spec_has_enemy(enemies, t.enemy) && (player_pos.x != enemies[spec_enemy_index(
            enemies,
            t.enemy,
        )].pos.x || player_pos.y != enemies[spec_enemy_index(enemies, t.enemy)].pos.y) {
            let e = enemies[spec_enemy_index(enemies, t.enemy)];
            let dx = player_pos.x - e.pos.x;
            let dy = player_pos.y - e.pos.y;
            let scale = PUSH_ACCELERATION as int * dt_ms as int;
            let px = spec_div_trunc(spec_unit_milli_x(dx, dy) * scale, 1_000_000);
            let py = spec_div_trunc(spec_unit_milli_y(dx, dy) * scale, 1_000_000);
            let acc = match pushed {
                Some(p) => p,
                None => Vec2i { x: 0, y: 0 },
            };
            let queued = Vec2i {
                x: spec_clamp(acc.x + px, VEL_LIMIT as int) as i64,
                y: spec_clamp(acc.y + py, VEL_LIMIT as int) as i64,
            };
            spec_push_after_touches(Some(queued), player_pos, enemies, touches.drop_first(), dt_ms)
        } else {
            spec_push_after_touches(pushed, player_pos, enemies, touches.drop_first(), dt_ms)
        }
    }
}

/// The healed events one tick emits: one identical player-healed event
/// per collected healing pickup.
pub open spec fn spec_healed_events(n: int) -> Seq<EntityEvent> {
    Seq::new(
        n as nat,
        |i: int| EntityEvent { kind: EntityKind::Player, event: EventKind::Healed, entity: 0 },
    )
}

/// The player-contact events one tick emits: nothing without contact
/// damage; one took-damage event, plus the died event when the damage is
/// fatal, when it applies.
pub open spec fn spec_contact_events(w: World, dmg: bool) -> Seq<EntityEvent> {
    if dmg {
        if w.player.health.cur_hp > 0 && w.player.health.damaged(CONTACT_DAMAGE).cur_hp == 0 {
            seq![
                EntityEvent { kind: EntityKind::Player, event: EventKind::TookDamage, entity: 0 },
                EntityEvent { kind: EntityKind::Player, event: EventKind::Died, entity: 0 },
            ]
        } else {
            seq![
                EntityEvent { kind: EntityKind::Player, event: EventKind::TookDamage, entity: 0 },
            ]
        }
    } else {
        Seq::empty()
    }
}

/// Whether every entity id the host's overlap report names was actually
/// allocated: physics can only report entities it was handed, so ids at
/// or above the allocation counter never appear in real input.
pub open spec fn spec_input_ids_allocated(input: TickInput, next_id: u64) -> bool {
    &&& forall|j: int|
        0 <= j < input.enemy_touches@.len() ==> #[trigger] input.enemy_touches@[j] < next_id
    &&& forall|j: int|
        0 <= j < input.projectile_hits@.len() ==> (#[trigger] input.projectile_hits@[j]).projectile
            < next_id
}

/// Whether this tick's contact pass deals its one contact damage: some
/// reported touch names an enemy that exists, and no invulnerability
/// window is active.
pub open spec fn spec_contact_damage_applies(w: World, touched: Seq<u64>) -> bool {
    &&& exists|j: int| 0 <= j < touched.len() && spec_has_enemy(w.enemies@, #[trigger] touched[j])
    &&& !w.player.spec_invulnerable()
}

/// The player's invulnerability status at the end of a tick: the fresh
/// window when contact damage applied, else whatever was active, stepped
/// by the frame time and detached on expiry.
pub open spec fn spec_invuln_after_tick(w: World, dmg: bool, dt_ms: u64) -> Option<BlinkState> {
    let base = if dmg {
        Some(
            BlinkState {
                blink_timer: CountdownTimer {
                    elapsed_ms: 0,
                    duration_ms: INVULN_DURATION_MS / (INVULN_BLINK_FREQUENCY * 2) as u64,
                },
                blinks_left: (INVULN_BLINK_FREQUENCY * 2) as u32,
                visible: true,
            },
        )
    } else {
        w.player.invuln
    };
    match base {
        Some(b) => if b.stepped(dt_ms).expired() {
            None
        } else {
            Some(b.stepped(dt_ms))
        },
        None => None,
    }
}

/// Whether a shot direction is what aiming from `origin` at `aim` under
/// a jitter of `angle_cd` hundredths of a degree produces: the aim
/// vector rotated by the jitter in fixed point, then normalized to
/// thousandths; a rotation that truncates to zero falls back to the
/// exact aim direction.
pub open spec fn spec_shot_dir_matches(aim: Vec2i, origin: Vec2i, angle_cd: int, dir: Vec2i) -> bool {
    let dx = aim.x - origin.x;
    let dy = aim.y - origin.y;
    let c = crate::vec2::spec_cos_cmil(angle_cd);
    let s = crate::vec2::spec_sin_cmil(angle_cd);
    let rx = spec_clamp(
        spec_div_trunc(dx * c, 1000) + spec_div_trunc(dy * -s, 1000),
        2_000_000_000,
    );
    let ry = spec_clamp(
        spec_div_trunc(dx * s, 1000) + spec_div_trunc(dy * c, 1000),
        2_000_000_000,
    );
    if rx != 0 || ry != 0 {
        dir.x == spec_unit_milli_x(rx, ry) && dir.y == spec_unit_milli_y(rx, ry)
    } else {
        dir.x == spec_unit_milli_x(dx, dy) && dir.y == spec_unit_milli_y(dx, dy)
    }
}

/// Projectiles keep everything but their phase, which moves only from
/// active to consumed.
pub open spec fn projectile_phases_advanced(
    pre: Seq<ProjectileState>,
    post: Seq<ProjectileState>,
) -> bool {
    &&& post.len() == pre.len()
    &&& forall|k: int|
        0 <= k < pre.len() ==> #[trigger] post[k] == (ProjectileState {
            phase: post[k].phase,
            ..pre[k]
        }) && (post[k].phase == pre[k].phase || (pre[k].phase == ProjectilePhase::Active
            && post[k].phase == ProjectilePhase::Consumed))
}

/// Enemies keep their identity, position, velocity and maximum; their
/// hit points only drop.
pub open spec fn enemies_only_damaged(pre: Seq<EnemyState>, post: Seq<EnemyState>) -> bool {
    &&& post.len() == pre.len()
    &&& forall|k: int|
        0 <= k < pre.len() ==> #[trigger] post[k] == (EnemyState { health: post[k].health, ..pre[k] })
            && post[k].health.max_hp == pre[k].health.max_hp && post[k].health.cur_hp
            <= pre[k].health.cur_hp
}

/// No hit among the first `upto` reported ones whose projectile and
/// target both existed leaves that projectile active.
pub open spec fn hits_resolved(
    w_pre: World,
    w_post: World,
    hits: Seq<ProjectileHitEvent>,
    upto: int,
) -> bool {
    forall|j: int|
        0 <= j < upto && spec_has_projectile(w_pre.projectiles@, (#[trigger] hits[j]).projectile)
            && spec_has_enemy(w_pre.enemies@, hits[j].target)
            ==> w_post.projectiles@[spec_projectile_index(
            w_pre.projectiles@,
            hits[j].projectile,
        )].phase != ProjectilePhase::Active
}

/// Whether any reported hit names this id as its target.
pub open spec fn hits_name_target(hits: Seq<ProjectileHitEvent>, id: u64) -> bool {
    exists|j: int| 0 <= j < hits.len() && hits[j].target == id
}

/// Whether any reported hit names this id as its projectile.
pub open spec fn hits_name_projectile(hits: Seq<ProjectileHitEvent>, id: u64) -> bool {
    exists|j: int| 0 <= j < hits.len() && hits[j].projectile == id
}

/// Every event is an enemy taking damage or dying of it.
pub open spec fn events_are_enemy_combat(events: Seq<EntityEvent>) -> bool {
    forall|e: int|
        0 <= e < events.len() ==> (#[trigger] events[e]).kind == EntityKind::Enemy && (
        events[e].event == EventKind::TookDamage || events[e].event == EventKind::Died)
}

/// A died event names an enemy that is (still) in the store with zero hit
/// points.
pub open spec fn died_event_valid(w: World, ev: EntityEvent) -> bool {
    &&& spec_has_enemy(w.enemies@, ev.entity)
    &&& w.enemies@[spec_enemy_index(w.enemies@, ev.entity)].health.cur_hp == 0
}

pub open spec fn died_events_mark_dead(w: World, events: Seq<EntityEvent>) -> bool {
    forall|e: int|
        0 <= e < events.len() && (#[trigger] events[e]).event == EventKind::Died
            ==> died_event_valid(w, events[e])
}

/// The exact outcome of resolving reported hits in order, starting from
/// the given projectiles, enemies, hit record and already-emitted events:
/// a hit whose projectile is present and active and whose target is
/// present consumes the projectile, damages the target by the
/// projectile's stored damage, records the projectile and emits one
/// took-damage event — plus the one died event when the target's hit
/// points cross to zero; any other hit is a recoverable no-op. Returns
/// the resulting projectiles, enemies, hit record and event list.
pub open spec fn spec_hits_outcome(
    projectiles: Seq<ProjectileState>,
    enemies: Seq<EnemyState>,
    log: Seq<u64>,
    events: Seq<EntityEvent>,
    hits: Seq<ProjectileHitEvent>,
) -> (Seq<ProjectileState>, Seq<EnemyState>, Seq<u64>, Seq<EntityEvent>)
    decreases hits.len(),
{
    if hits.len() == 0 {
        (projectiles, enemies, log, events)
    } else {
        let hit = hits[0];
        if spec_has_projectile(projectiles, hit.projectile) && projectiles[spec_projectile_index(
            projectiles,
            hit.projectile,
        )].phase == ProjectilePhase::Active && spec_has_enemy(enemies, hit.target) {
            let pi = spec_projectile_index(projectiles, hit.projectile);
            let ei = spec_enemy_index(enemies, hit.target);
            let damage = projectiles[pi].damage;
            let e0 = enemies[ei];
            let e1 = EnemyState { health: e0.health.damaged(damage), ..e0 };
            let died = e0.health.cur_hp > 0 && e1.health.cur_hp == 0;
            let evs1 = events.push(
                EntityEvent { kind: EntityKind::Enemy, event: EventKind::TookDamage, entity: hit.target },
            );
            let evs2 = if died {
                evs1.push(
                    EntityEvent { kind: EntityKind::Enemy, event: EventKind::Died, entity: hit.target },
                )
            } else {
                evs1
            };
            spec_hits_outcome(
                projectiles.update(
                    pi,
                    ProjectileState { phase: ProjectilePhase::Consumed, ..projectiles[pi] },
                ),
                enemies.update(ei, e1),
                log.push(hit.projectile),
                evs2,
                hits.drop_first(),
            )
        } else {
            spec_hits_outcome(projectiles, enemies, log, events, hits.drop_first())
        }
    }
}

/// An index holding the sought id is what the projectile lookup returns:
/// ids are unique.
proof fn lemma_projectile_lookup(s: Seq<ProjectileState>, id: u64, w: int, next_id: u64)
    requires
        projectiles_ok(s, next_id),
        0 <= w < s.len(),
        s[w].id == id,
    ensures
        spec_has_projectile(s, id),
        spec_projectile_index(s, id) == w,
{
    assert(spec_has_projectile(s, id));
    let j = spec_projectile_index(s, id);
    assert(0 <= j < s.len() && s[j].id == id);
    if j < w {
        assert(s[j].id != s[w].id);
    }
    if w < j {
        assert(s[w].id != s[j].id);
    }
}

/// An index holding the sought id is what the enemy lookup returns: ids
/// are unique.
proof fn lemma_enemy_lookup(s: Seq<EnemyState>, id: u64, w: int, next_id: u64)
    requires
        enemies_ok(s, next_id),
        0 <= w < s.len(),
        s[w].id == id,
    ensures
        spec_has_enemy(s, id),
        spec_enemy_index(s, id) == w,
{
    assert(spec_has_enemy(s, id));
    let j = spec_enemy_index(s, id);
    assert(0 <= j < s.len() && s[j].id == id);
    if j < w {
        assert(s[j].id != s[w].id);
    }
    if w < j {
        assert(s[w].id != s[j].id);
    }
}

/// Replacing one enemy by a well-formed one with the same id keeps the
/// enemy list well formed.
proof fn lemma_enemy_update(pre: Seq<EnemyState>, post: Seq<EnemyState>, ei: int, next_id: u64)
    requires
        enemies_ok(pre, next_id),
        0 <= ei < pre.len(),
        post == pre.update(ei, post[ei]),
        post[ei].id == pre[ei].id,
        post[ei].wf(),
    ensures
        enemies_ok(post, next_id),
{
    assert forall|k: int| 0 <= k < post.len() implies (#[trigger] post[k]).wf() && post[k].id
        < next_id by {
        if k != ei {
            assert(post[k] == pre[k]);
        }
    }
}

/// Two entity lists with equal ids at every index agree on every lookup.
proof fn lemma_same_ids_has_projectile(a: Seq<ProjectileState>, b: Seq<ProjectileState>, id: u64)
    requires
        a.len() == b.len(),
        forall|k: int| 0 <= k < a.len() ==> (#[trigger] a[k]).id == b[k].id,
    ensures
        spec_has_projectile(a, id) <==> spec_has_projectile(b, id),
{
    if spec_has_projectile(a, id) {
        let w = choose|k: int| 0 <= k < a.len() && a[k].id == id;
        assert(b[w].id == id);
        assert(spec_has_projectile(b, id));
    }
    if spec_has_projectile(b, id) {
        let w = choose|k: int| 0 <= k < b.len() && b[k].id == id;
        assert(a[w].id == id);
        assert(spec_has_projectile(a, id));
    }
}

proof fn lemma_same_ids_has_enemy(a: Seq<EnemyState>, b: Seq<EnemyState>, id: u64)
    requires
        a.len() == b.len(),
        forall|k: int| 0 <= k < a.len() ==> (#[trigger] a[k]).id == b[k].id,
    ensures
        spec_has_enemy(a, id) <==> spec_has_enemy(b, id),
{
    if spec_has_enemy(a, id) {
        let w = choose|k: int| 0 <= k < a.len() && a[k].id == id;
        assert(b[w].id == id);
        assert(spec_has_enemy(b, id));
    }
    if spec_has_enemy(b, id) {
        let w = choose|k: int| 0 <= k < b.len() && b[k].id == id;
        assert(a[w].id == id);
        assert(spec_has_enemy(a, id));
    }
}

/// The ids of two projectile lists related by a phase advance agree.
proof fn lemma_phase_advance_ids(pre: Seq<ProjectileState>, post: Seq<ProjectileState>)
    requires
        projectile_phases_advanced(pre, post),
    ensures
        forall|k: int| 0 <= k < pre.len() ==> (#[trigger] pre[k]).id == post[k].id,
{
}

/// The ids of two enemy lists related by damage only agree.
proof fn lemma_damage_only_ids(pre: Seq<EnemyState>, post: Seq<EnemyState>)
    requires
        enemies_only_damaged(pre, post),
    ensures
        forall|k: int| 0 <= k < pre.len() ==> (#[trigger] pre[k]).id == post[k].id,
{
}

/// One resolved hit extends the resolution property by one: after the
/// step that consumed projectile `pi` against enemy `ei`, every hit up to
/// and including the current one is resolved.
proof fn lemma_hit_consumed_step(
    w_old: World,
    w_pre: World,
    w_post: World,
    hits: Seq<ProjectileHitEvent>,
    i: int,
    pi: int,
    ei: int,
)
    requires
        w_old.inv(),
        0 <= i < hits.len(),
        projectile_phases_advanced(w_old.projectiles@, w_pre.projectiles@),
        hits_resolved(w_old, w_pre, hits, i),
        0 <= pi < w_pre.projectiles@.len(),
        w_pre.projectiles@[pi].id == hits[i].projectile,
        w_post.projectiles@ == w_pre.projectiles@.update(
            pi,
            ProjectileState { phase: ProjectilePhase::Consumed, ..w_pre.projectiles@[pi] },
        ),
    ensures
        hits_resolved(w_old, w_post, hits, i + 1),
{
    lemma_phase_advance_ids(w_old.projectiles@, w_pre.projectiles@);
    assert forall|j: int|
        0 <= j < i + 1 && spec_has_projectile(w_old.projectiles@, (#[trigger] hits[j]).projectile)
            && spec_has_enemy(w_old.enemies@, hits[j].target)
            implies w_post.projectiles@[spec_projectile_index(
        w_old.projectiles@,
        hits[j].projectile,
    )].phase != ProjectilePhase::Active by {
        let jidx = spec_projectile_index(w_old.projectiles@, hits[j].projectile);
        assert(0 <= jidx < w_old.projectiles@.len() && w_old.projectiles@[jidx].id
            == hits[j].projectile);
        if j < i {
            assert(w_pre.projectiles@[jidx].phase != ProjectilePhase::Active);
            if jidx != pi {
                assert(w_post.projectiles@[jidx] == w_pre.projectiles@[jidx]);
            }
        } else {
            assert(w_old.projectiles@[jidx].id == w_old.projectiles@[pi].id);
            lemma_projectile_lookup(w_old.projectiles@, hits[i].projectile, pi, w_old.next_id);
            assert(jidx == pi);
            assert(w_post.projectiles@[pi].phase == ProjectilePhase::Consumed);
        }
    }
}

/// A skipped hit extends the resolution property by one: its projectile
/// or its target was already gone, or the projectile was no longer
/// active.
proof fn lemma_hit_noop_step(w_old: World, w_cur: World, hits: Seq<ProjectileHitEvent>, i: int)
    requires
        w_old.inv(),
        w_cur.inv(),
        0 <= i < hits.len(),
        projectile_phases_advanced(w_old.projectiles@, w_cur.projectiles@),
        enemies_only_damaged(w_old.enemies@, w_cur.enemies@),
        hits_resolved(w_old, w_cur, hits, i),
        !spec_has_projectile(w_cur.projectiles@, hits[i].projectile) || !spec_has_enemy(
            w_cur.enemies@,
            hits[i].target,
        ) || w_cur.projectiles@[spec_projectile_index(
            w_cur.projectiles@,
            hits[i].projectile,
        )].phase != ProjectilePhase::Active,
    ensures
        hits_resolved(w_old, w_cur, hits, i + 1),
{
    lemma_phase_advance_ids(w_old.projectiles@, w_cur.projectiles@);
    lemma_damage_only_ids(w_old.enemies@, w_cur.enemies@);
    lemma_same_ids_has_projectile(w_old.projectiles@, w_cur.projectiles@, hits[i].projectile);
    lemma_same_ids_has_enemy(w_old.enemies@, w_cur.enemies@, hits[i].target);
    if spec_has_projectile(w_old.projectiles@, hits[i].projectile) && spec_has_enemy(
        w_old.enemies@,
        hits[i].target,
    ) {
        let jidx = spec_projectile_index(w_old.projectiles@, hits[i].projectile);
        assert(0 <= jidx < w_old.projectiles@.len() && w_old.projectiles@[jidx].id
            == hits[i].projectile);
        lemma_projectile_lookup(w_cur.projectiles@, hits[i].projectile, jidx, w_cur.next_id);
        assert(spec_projectile_index(w_cur.projectiles@, hits[i].projectile) == jidx);
    }
}

/// The hit fold's effect on enemies, record and events does not depend
/// on projectile fields the hits never read: two projectile lists that
/// agree on ids, phases and damages at every shared index — the longer
/// one extended only by fresh ids no hit names — drive the fold to the
/// same enemies, the same record and the same events.
proof fn lemma_hits_outcome_congruent(
    pa: Seq<ProjectileState>,
    pb: Seq<ProjectileState>,
    enemies: Seq<EnemyState>,
    log: Seq<u64>,
    events: Seq<EntityEvent>,
    hits: Seq<ProjectileHitEvent>,
    bound: u64,
)
    requires
        pa.len() <= pb.len(),
        forall|k: int|
            0 <= k < pa.len() ==> (#[trigger] pa[k]).id == pb[k].id && pa[k].phase == pb[k].phase
                && pa[k].damage == pb[k].damage,
        forall|k: int| 0 <= k < pa.len() ==> (#[trigger] pa[k]).id < bound,
        forall|k: int| pa.len() <= k < pb.len() ==> (#[trigger] pb[k]).id >= bound,
        forall|k: int, l: int| 0 <= k < l < pa.len() ==> pa[k].id != pa[l].id,
        forall|k: int, l: int| 0 <= k < l < pb.len() ==> pb[k].id != pb[l].id,
        forall|j: int| 0 <= j < hits.len() ==> (#[trigger] hits[j]).projectile < bound,
    ensures
        spec_hits_outcome(pb, enemies, log, events, hits).1 == spec_hits_outcome(
            pa,
            enemies,
            log,
            events,
            hits,
        ).1,
        spec_hits_outcome(pb, enemies, log, events, hits).2 == spec_hits_outcome(
            pa,
            enemies,
            log,
            events,
            hits,
        ).2,
        spec_hits_outcome(pb, enemies, log, events, hits).3 == spec_hits_outcome(
            pa,
            enemies,
            log,
            events,
            hits,
        ).3,
    decreases hits.len(),
{
    if hits.len() > 0 {
        let hit = hits[0];
        let id = hit.projectile;
        let tail = hits.drop_first();
        assert forall|j: int| 0 <= j < tail.len() implies (#[trigger] tail[j]).projectile
            < bound by {
            assert(tail[j] == hits[j + 1]);
        }
        if spec_has_projectile(pa, id) {
            let wa0 = choose|k: int| 0 <= k < pa.len() && pa[k].id == id;
            assert(pb[wa0].id == id);
            assert(spec_has_projectile(pb, id));
            let ia = spec_projectile_index(pa, id);
            let ib = spec_projectile_index(pb, id);
            assert(0 <= ia < pa.len() && pa[ia].id == id);
            assert(0 <= ib < pb.len() && pb[ib].id == id);
            assert(ib < pa.len());
            assert(pb[ia].id == id);
            if ia < ib {
                assert(pb[ia].id != pb[ib].id);
            }
            if ib < ia {
                assert(pb[ib].id != pb[ia].id);
            }
            assert(ia == ib);
            if pa[ia].phase == ProjectilePhase::Active && spec_has_enemy(enemies, hit.target) {
                let ei = spec_enemy_index(enemies, hit.target);
                let e0 = enemies[ei];
                let e1 = EnemyState { health: e0.health.damaged(pa[ia].damage), ..e0 };
                let died = e0.health.cur_hp > 0 && e1.health.cur_hp == 0;
                let evs1 = events.push(
                    EntityEvent {
                        kind: EntityKind::Enemy,
                        event: EventKind::TookDamage,
                        entity: hit.target,
                    },
                );
                let evs2 = if died {
                    evs1.push(
                        EntityEvent {
                            kind: EntityKind::Enemy,
                            event: EventKind::Died,
                            entity: hit.target,
                        },
                    )
                } else {
                    evs1
                };
                let pa2 = pa.update(
                    ia,
                    ProjectileState { phase: ProjectilePhase::Consumed, ..pa[ia] },
                );
                let pb2 = pb.update(
                    ia,
                    ProjectileState { phase: ProjectilePhase::Consumed, ..pb[ia] },
                );
                assert forall|k: int|
                    0 <= k < pa2.len() implies (#[trigger] pa2[k]).id == pb2[k].id
                    && pa2[k].phase == pb2[k].phase && pa2[k].damage == pb2[k].damage by {
                    if k != ia {
                        assert(pa2[k] == pa[k]);
                        assert(pb2[k] == pb[k]);
                    }
                }
                assert forall|k: int| 0 <= k < pa2.len() implies (#[trigger] pa2[k]).id
                    < bound by {
                    assert(pa2[k].id == pa[k].id);
                }
                assert forall|k: int|
                    pa2.len() <= k < pb2.len() implies (#[trigger] pb2[k]).id >= bound by {
                    assert(pb2[k] == pb[k]);
                }
                assert forall|k: int, l: int|
                    0 <= k < l < pa2.len() implies pa2[k].id != pa2[l].id by {
                    assert(pa2[k].id == pa[k].id);
                    assert(pa2[l].id == pa[l].id);
                }
                assert forall|k: int, l: int|
                    0 <= k < l < pb2.len() implies pb2[k].id != pb2[l].id by {
                    assert(pb2[k].id == pb[k].id);
                    assert(pb2[l].id == pb[l].id);
                }
                lemma_hits_outcome_congruent(
                    pa2,
                    pb2,
                    enemies.update(ei, e1),
                    log.push(id),
                    evs2,
                    tail,
                    bound,
                );
            } else {
                lemma_hits_outcome_congruent(pa, pb, enemies, log, events, tail, bound);
            }
        } else {
            assert(!spec_has_projectile(pb, id)) by {
                if spec_has_projectile(pb, id) {
                    let wb = choose|k: int| 0 <= k < pb.len() && pb[k].id == id;
                    assert(wb < pa.len());
                    assert(pa[wb].id == id);
                }
            }
            lemma_hits_outcome_congruent(pa, pb, enemies, log, events, tail, bound);
        }
    }
}

/// Damaging one enemy in place keeps every earlier died event valid: ids
/// and indices are untouched and zero hit points can only stay zero.
proof fn lemma_died_events_carry(w_pre: World, w_post: World, events: Seq<EntityEvent>, ei: int)
    requires
        w_pre.inv(),
        died_events_mark_dead(w_pre, events),
        0 <= ei < w_pre.enemies@.len(),
        w_post.enemies@ == w_pre.enemies@.update(ei, w_post.enemies@[ei]),
        w_post.enemies@[ei].id == w_pre.enemies@[ei].id,
        w_post.enemies@[ei].health.cur_hp <= w_pre.enemies@[ei].health.cur_hp,
        enemies_ok(w_post.enemies@, w_post.next_id),
    ensures
        forall|e: int|
            0 <= e < events.len() && (#[trigger] events[e]).event == EventKind::Died
                ==> died_event_valid(w_post, events[e]),
{
    assert forall|e: int|
        0 <= e < events.len() && (#[trigger] events[e]).event == EventKind::Died
            implies died_event_valid(w_post, events[e]) by {
        let ent = events[e].entity;
        let w = spec_enemy_index(w_pre.enemies@, ent);
        assert(0 <= w < w_pre.enemies@.len() && w_pre.enemies@[w].id == ent);
        assert(w_post.enemies@[w].id == ent);
        lemma_enemy_lookup(w_post.enemies@, ent, w, w_post.next_id);
        if w == ei {
            assert(w_post.enemies@[w].health.cur_hp == 0);
        } else {
            assert(w_post.enemies@[w] == w_pre.enemies@[w]);
        }
    }
}

/// Consuming one active projectile and recording its id keeps the hit
/// record duplicate-free and in step with the phases: the consumed
/// projectile's id was not yet on record, every other projectile keeps
/// its phase, and ids never repeat across live projectiles.
proof fn lemma_consume_projectile(
    pre: Seq<ProjectileState>,
    post: Seq<ProjectileState>,
    log_pre: Seq<u64>,
    log_post: Seq<u64>,
    pi: int,
    next_id: u64,
)
    requires
        projectiles_ok(pre, next_id),
        hit_log_ok(log_pre, next_id),
        phases_match_log(pre, log_pre),
        0 <= pi < pre.len(),
        pre[pi].phase == ProjectilePhase::Active,
        post == pre.update(pi, ProjectileState { phase: ProjectilePhase::Consumed, ..pre[pi] }),
        log_post == log_pre.push(pre[pi].id),
    ensures
        projectiles_ok(post, next_id),
        hit_log_ok(log_post, next_id),
        phases_match_log(post, log_post),
        log_pre.is_prefix_of(log_post),
{
    assert(!log_pre.contains(pre[pi].id));
    assert forall|i: int| 0 <= i < post.len() implies ((#[trigger] post[i]).phase
        == ProjectilePhase::Consumed <==> log_post.contains(post[i].id)) by {
        if i == pi {
            assert(log_post[log_post.len() - 1] == pre[pi].id);
            assert(log_post.contains(post[i].id));
        } else {
            assert(post[i] == pre[i]);
            assert(pre[i].id != pre[pi].id);
            if log_post.contains(post[i].id) {
                let k = choose|k: int| 0 <= k < log_post.len() && log_post[k] == post[i].id;
                assert(k < log_pre.len());
                assert(log_pre.contains(post[i].id));
            }
            if log_pre.contains(post[i].id) {
                let k = choose|k: int| 0 <= k < log_pre.len() && log_pre[k] == post[i].id;
                assert(log_post[k] == post[i].id);
                assert(log_post.contains(post[i].id));
            }
        }
    }
}


/// The enemy store after consuming the died events in order: each
/// enemy-died event removes its named enemy if it is still present;
/// anything else is a recoverable no-op.
pub open spec fn spec_enemies_after_deaths(
    enemies: Seq<EnemyState>,
    events: Seq<EntityEvent>,
) -> Seq<EnemyState>
    decreases events.len(),
{
    if events.len() == 0 {
        enemies
    } else {
        let ev = events[0];
        if ev.kind == EntityKind::Enemy && ev.event == EventKind::Died && spec_has_enemy(
            enemies,
            ev.entity,
        ) {
            spec_enemies_after_deaths(
                enemies.remove(spec_enemy_index(enemies, ev.entity)),
                events.drop_first(),
            )
        } else {
            spec_enemies_after_deaths(enemies, events.drop_first())
        }
    }
}

/// Where the died events drop their pickups: the position of each named
/// enemy at the moment it is removed, in event order.
pub open spec fn spec_death_positions(
    enemies: Seq<EnemyState>,
    events: Seq<EntityEvent>,
) -> Seq<Vec2i>
    decreases events.len(),
{
    if events.len() == 0 {
        Seq::empty()
    } else {
        let ev = events[0];
        if ev.kind == EntityKind::Enemy && ev.event == EventKind::Died && spec_has_enemy(
            enemies,
            ev.entity,
        ) {
            seq![enemies[spec_enemy_index(enemies, ev.entity)].pos] + spec_death_positions(
                enemies.remove(spec_enemy_index(enemies, ev.entity)),
                events.drop_first(),
            )
        } else {
            spec_death_positions(enemies, events.drop_first())
        }
    }
}

/// What an enemy death may drop: one experience crumb or one healing
/// crumb, each with its fixed value.
pub open spec fn crumb_valid(p: PickupState) -> bool {
    ||| (p.kind == PickupKind::XpCrumb && p.value == XP_CRUMB_VALUE)
    ||| (p.kind == PickupKind::HealingCrumb && p.value == HEAL_CRUMB_AMOUNT)
}

/// A pickup of the given kind with the given id is (still) in the store.
pub open spec fn pickup_kind_live(s: Seq<PickupState>, id: u64, kind: PickupKind) -> bool {
    spec_has_pickup(s, id) && s[spec_pickup_index(s, id)].kind == kind
}

pub open spec fn xp_pickup_live(s: Seq<PickupState>, id: u64) -> bool {
    pickup_kind_live(s, id, PickupKind::XpCrumb)
}

pub open spec fn healing_pickup_live(s: Seq<PickupState>, id: u64) -> bool {
    pickup_kind_live(s, id, PickupKind::HealingCrumb)
}

/// A position component after one integration step: the velocity times
/// the frame time, in whole units, clamped into the arena.
pub open spec fn spec_integrated(pos_c: int, vel_c: int, dt_ms: u64) -> int {
    spec_clamp(pos_c + spec_div_trunc(vel_c * dt_ms as int, 1000), POS_LIMIT as int)
}

/// An index holding the sought id is what the pickup lookup returns: ids
/// are unique.
proof fn lemma_pickup_lookup(s: Seq<PickupState>, id: u64, w: int, next_id: u64)
    requires
        pickups_ok(s, next_id),
        0 <= w < s.len(),
        s[w].id == id,
    ensures
        spec_has_pickup(s, id),
        spec_pickup_index(s, id) == w,
{
    assert(spec_has_pickup(s, id));
    let j = spec_pickup_index(s, id);
    assert(0 <= j < s.len() && s[j].id == id);
    if j < w {
        assert(s[j].id != s[w].id);
    }
    if w < j {
        assert(s[w].id != s[j].id);
    }
}

/// Removing one enemy keeps the list well formed; every survivor was
/// already in the list before the removal, and the removed id is gone
/// for good.
proof fn lemma_enemy_remove(pre: Seq<EnemyState>, post: Seq<EnemyState>, ei: int, next_id: u64)
    requires
        enemies_ok(pre, next_id),
        0 <= ei < pre.len(),
        post == pre.remove(ei),
    ensures
        enemies_ok(post, next_id),
        post.len() == pre.len() - 1,
        forall|k: int|
            0 <= k < post.len() ==> exists|j: int| 0 <= j < pre.len() && pre[j] == #[trigger] post[k],
        !spec_has_enemy(post, pre[ei].id),
{
    assert forall|k: int|
        0 <= k < post.len() implies exists|j: int|
        0 <= j < pre.len() && pre[j] == #[trigger] post[k] by {
        if k < ei {
            assert(pre[k] == post[k]);
        } else {
            assert(pre[k + 1] == post[k]);
        }
    }
    assert forall|k: int| 0 <= k < post.len() implies (#[trigger] post[k]).wf() && post[k].id
        < next_id by {
        if k < ei {
            assert(pre[k] == post[k]);
        } else {
            assert(pre[k + 1] == post[k]);
        }
    }
    assert forall|k: int, l: int| 0 <= k < l < post.len() implies post[k].id != post[l].id by {
        let k0 = if k < ei { k } else { k + 1 };
        let l0 = if l < ei { l } else { l + 1 };
        assert(pre[k0] == post[k]);
        assert(pre[l0] == post[l]);
        assert(pre[k0].id != pre[l0].id);
    }
    if spec_has_enemy(post, pre[ei].id) {
        let w = choose|k: int| 0 <= k < post.len() && post[k].id == pre[ei].id;
        let w0 = if w < ei { w } else { w + 1 };
        assert(pre[w0] == post[w]);
        assert(pre[w0].id != pre[ei].id);
    }
}

/// Removing one pickup keeps the list well formed; every survivor was
/// already in the list before the removal, and the removed id is gone
/// for good.
proof fn lemma_pickup_remove(pre: Seq<PickupState>, post: Seq<PickupState>, pi: int, next_id: u64)
    requires
        pickups_ok(pre, next_id),
        0 <= pi < pre.len(),
        post == pre.remove(pi),
    ensures
        pickups_ok(post, next_id),
        post.len() == pre.len() - 1,
        forall|k: int|
            0 <= k < post.len() ==> exists|j: int| 0 <= j < pre.len() && pre[j] == #[trigger] post[k],
        !spec_has_pickup(post, pre[pi].id),
{
    assert forall|k: int|
        0 <= k < post.len() implies exists|j: int|
        0 <= j < pre.len() && pre[j] == #[trigger] post[k] by {
        if k < pi {
            assert(pre[k] == post[k]);
        } else {
            assert(pre[k + 1] == post[k]);
        }
    }
    assert forall|k: int| 0 <= k < post.len() implies (#[trigger] post[k]).wf() && post[k].id
        < next_id by {
        if k < pi {
            assert(pre[k] == post[k]);
        } else {
            assert(pre[k + 1] == post[k]);
        }
    }
    assert forall|k: int, l: int| 0 <= k < l < post.len() implies post[k].id != post[l].id by {
        let k0 = if k < pi { k } else { k + 1 };
        let l0 = if l < pi { l } else { l + 1 };
        assert(pre[k0] == post[k]);
        assert(pre[l0] == post[l]);
        assert(pre[k0].id != pre[l0].id);
    }
    if spec_has_pickup(post, pre[pi].id) {
        let w = choose|k: int| 0 <= k < post.len() && post[k].id == pre[pi].id;
        let w0 = if w < pi { w } else { w + 1 };
        assert(pre[w0] == post[w]);
        assert(pre[w0].id != pre[pi].id);
    }
}

/// Whether any reported touch finds an enemy is decided by the store as
/// it stood at the start of the tick: combat only rewrites enemy health
/// in place, and the one enemy a tick can spawn carries a fresh id that
/// genuine input cannot name yet.
proof fn lemma_touch_decision(
    w_old: World,
    s: World,
    touched: Seq<u64>,
    evs: Seq<EnemyTouchedPlayerEvent>,
)
    requires
        forall|k: int|
            0 <= k < w_old.enemies@.len() ==> k < s.enemies@.len() && (#[trigger] s.enemies@[k]).id
                == w_old.enemies@[k].id,
        forall|k: int|
            w_old.enemies@.len() <= k < s.enemies@.len() ==> (#[trigger] s.enemies@[k]).id
                >= w_old.next_id,
        forall|j: int| 0 <= j < touched.len() ==> #[trigger] touched[j] < w_old.next_id,
        forall|k: int|
            0 <= k < evs.len() ==> spec_has_enemy(s.enemies@, (#[trigger] evs[k]).enemy)
                && touched.contains(evs[k].enemy),
        forall|j: int|
            0 <= j < touched.len() && spec_has_enemy(s.enemies@, #[trigger] touched[j])
                ==> evs.contains(EnemyTouchedPlayerEvent { enemy: touched[j] }),
    ensures
        (evs.len() > 0) <==> (exists|j: int|
            0 <= j < touched.len() && spec_has_enemy(w_old.enemies@, #[trigger] touched[j])),
{
    if evs.len() > 0 {
        let id = evs[0].enemy;
        let j = choose|j: int| 0 <= j < touched.len() && touched[j] == id;
        let w = choose|k: int| 0 <= k < s.enemies@.len() && s.enemies@[k].id == id;
        assert(w < w_old.enemies@.len());
        assert(w_old.enemies@[w].id == id);
        assert(spec_has_enemy(w_old.enemies@, touched[j]));
    }
    if exists|j: int|
        0 <= j < touched.len() && spec_has_enemy(w_old.enemies@, #[trigger] touched[j]) {
        let j = choose|j: int|
            0 <= j < touched.len() && spec_has_enemy(w_old.enemies@, #[trigger] touched[j]);
        let w = choose|k: int|
            0 <= k < w_old.enemies@.len() && w_old.enemies@[k].id == touched[j];
        assert(s.enemies@[w].id == touched[j]);
        assert(spec_has_enemy(s.enemies@, touched[j]));
        assert(evs.contains(EnemyTouchedPlayerEvent { enemy: touched[j] }));
        assert(evs.len() > 0);
    }
}

/// Enemies already gone stay gone under a removal: no died event among
/// the first `i` can name a survivor.
proof fn lemma_gone_enemies_stay_gone(
    pre: Seq<EnemyState>,
    post: Seq<EnemyState>,
    events: Seq<EntityEvent>,
    i: int,
)
    requires
        forall|k: int|
            0 <= k < post.len() ==> exists|j: int| 0 <= j < pre.len() && pre[j] == #[trigger] post[k],
        forall|e: int|
            0 <= e < i && (#[trigger] events[e]).kind == EntityKind::Enemy && events[e].event
                == EventKind::Died ==> !spec_has_enemy(pre, events[e].entity),
    ensures
        forall|e: int|
            0 <= e < i && (#[trigger] events[e]).kind == EntityKind::Enemy && events[e].event
                == EventKind::Died ==> !spec_has_enemy(post, events[e].entity),
{
    assert forall|e: int|
        0 <= e < i && (#[trigger] events[e]).kind == EntityKind::Enemy && events[e].event
            == EventKind::Died implies !spec_has_enemy(post, events[e].entity) by {
        if spec_has_enemy(post, events[e].entity) {
            let w = choose|k: int| 0 <= k < post.len() && post[k].id == events[e].entity;
            let j = choose|j: int| 0 <= j < pre.len() && pre[j] == post[w];
            assert(pre[j].id == events[e].entity);
        }
    }
}

/// Pickups of a kind already gone stay gone under a removal: no contact
/// among the first `i` can name a surviving pickup of that kind.
proof fn lemma_gone_pickup_kind_stays_gone(
    pre: Seq<PickupState>,
    post: Seq<PickupState>,
    contacts: Seq<u64>,
    i: int,
    kind: PickupKind,
    next_id: u64,
)
    requires
        pickups_ok(pre, next_id),
        forall|k: int|
            0 <= k < post.len() ==> exists|j: int| 0 <= j < pre.len() && pre[j] == #[trigger] post[k],
        forall|j: int| 0 <= j < i ==> !pickup_kind_live(pre, #[trigger] contacts[j], kind),
    ensures
        forall|j: int| 0 <= j < i ==> !pickup_kind_live(post, #[trigger] contacts[j], kind),
{
    assert forall|j: int| 0 <= j < i implies !pickup_kind_live(
        post,
        #[trigger] contacts[j],
        kind,
    ) by {
        if pickup_kind_live(post, contacts[j], kind) {
            let w = spec_pickup_index(post, contacts[j]);
            assert(0 <= w < post.len() && post[w].id == contacts[j]);
            let jj = choose|j2: int| 0 <= j2 < pre.len() && pre[j2] == post[w];
            lemma_pickup_lookup(pre, contacts[j], jj, next_id);
        }
    }
}


/// How often a value occurs in a sequence.
pub open spec fn seq_count(s: Seq<u64>, v: u64) -> nat
    decreases s.len(),
{
    if s.len() == 0 {
        0
    } else {
        seq_count(s.drop_last(), v) + (if s.last() == v {
            1nat
        } else {
            0nat
        })
    }
}

/// A sequence without duplicates holds any value at most once.
proof fn lemma_nodup_count(s: Seq<u64>, v: u64)
    requires
        forall|k: int, l: int| 0 <= k < l < s.len() ==> s[k] != s[l],
    ensures
        seq_count(s, v) <= 1,
    decreases s.len(),
{
    if s.len() > 0 {
        let head = s.drop_last();
        assert(forall|k: int, l: int| 0 <= k < l < head.len() ==> head[k] != head[l]);
        lemma_nodup_count(head, v);
        if s.last() == v {
            lemma_absent_count_zero(head, v);
        }
    }
}

/// A value a sequence does not contain occurs zero times in it.
proof fn lemma_absent_count_zero(s: Seq<u64>, v: u64)
    requires
        !s.contains(v),
    ensures
        seq_count(s, v) == 0,
    decreases s.len(),
{
    if s.len() > 0 {
        let head = s.drop_last();
        assert(!head.contains(v)) by {
            if head.contains(v) {
                let k = choose|k: int| 0 <= k < head.len() && head[k] == v;
                assert(s[k] == v);
            }
        }
        lemma_absent_count_zero(head, v);
    }
}

/// A projectile never applies damage more than once: damage is recorded
/// on the hit record at the one transition into the consumed phase, the
/// record never repeats an id, and a consumed projectile is removed at
/// the flush and its id never reused — so across a projectile's whole
/// lifetime its id is on the record at most once.
pub proof fn lemma_projectile_damages_at_most_once(w: World, id: u64)
    requires
        w.inv(),
    ensures
        seq_count(w.hit_log@, id) <= 1,
{
    lemma_nodup_count(w.hit_log@, id);
}


/// The pickup store after the experience collection pass: each reported
/// contact removes its experience pickup, in reported order; healing
/// pickups and dangling ids are left alone.
pub open spec fn spec_xp_pickups_after(pickups: Seq<PickupState>, contacts: Seq<u64>) -> Seq<
    PickupState,
>
    decreases contacts.len(),
{
    if contacts.len() == 0 {
        pickups
    } else if xp_pickup_live(pickups, contacts[0]) {
        spec_xp_pickups_after(
            pickups.remove(spec_pickup_index(pickups, contacts[0])),
            contacts.drop_first(),
        )
    } else {
        spec_xp_pickups_after(pickups, contacts.drop_first())
    }
}

/// The progression tracker after the experience collection pass: each
/// collected pickup's value accumulates, in reported order.
pub open spec fn spec_level_after_xp(
    level: PlayerLevel,
    pickups: Seq<PickupState>,
    contacts: Seq<u64>,
) -> PlayerLevel
    decreases contacts.len(),
{
    if contacts.len() == 0 {
        level
    } else if xp_pickup_live(pickups, contacts[0]) {
        spec_level_after_xp(
            level.with_xp(pickups[spec_pickup_index(pickups, contacts[0])].value as u64),
            pickups.remove(spec_pickup_index(pickups, contacts[0])),
            contacts.drop_first(),
        )
    } else {
        spec_level_after_xp(level, pickups, contacts.drop_first())
    }
}

/// The pickup store after the healing collection pass: each reported
/// contact removes its healing pickup, in reported order.
pub open spec fn spec_heal_pickups_after(pickups: Seq<PickupState>, contacts: Seq<u64>) -> Seq<
    PickupState,
>
    decreases contacts.len(),
{
    if contacts.len() == 0 {
        pickups
    } else if healing_pickup_live(pickups, contacts[0]) {
        spec_heal_pickups_after(
            pickups.remove(spec_pickup_index(pickups, contacts[0])),
            contacts.drop_first(),
        )
    } else {
        spec_heal_pickups_after(pickups, contacts.drop_first())
    }
}

/// How many of the reported contacts collect a healing pickup, walking
/// the contacts in reported order.
pub open spec fn spec_heals_collected(pickups: Seq<PickupState>, contacts: Seq<u64>) -> int
    decreases contacts.len(),
{
    if contacts.len() == 0 {
        0
    } else if healing_pickup_live(pickups, contacts[0]) {
        1 + spec_heals_collected(
            pickups.remove(spec_pickup_index(pickups, contacts[0])),
            contacts.drop_first(),
        )
    } else {
        spec_heals_collected(pickups, contacts.drop_first())
    }
}

/// The player's health after the healing collection pass: each collected
/// pickup heals by its value, clamping at the maximum, in reported order.
pub open spec fn spec_health_after_heals(
    h: Health,
    pickups: Seq<PickupState>,
    contacts: Seq<u64>,
) -> Health
    decreases contacts.len(),
{
    if contacts.len() == 0 {
        h
    } else if healing_pickup_live(pickups, contacts[0]) {
        spec_health_after_heals(
            h.healed(pickups[spec_pickup_index(pickups, contacts[0])].value),
            pickups.remove(spec_pickup_index(pickups, contacts[0])),
            contacts.drop_first(),
        )
    } else {
        spec_health_after_heals(h, pickups, contacts.drop_first())
    }
}

/// Skipping one more element is dropping the first of the remainder.
proof fn lemma_skip_one<A>(s: Seq<A>, i: int)
    requires
        0 <= i < s.len(),
    ensures
        s.skip(i).len() == s.len() - i,
        s.skip(i)[0] == s[i],
        s.skip(i).drop_first() == s.skip(i + 1),
{
    assert(s.skip(i).drop_first() =~= s.skip(i + 1));
}

} // verus!
