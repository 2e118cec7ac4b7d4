//! Domain events and per-tick input.
//!
//! Health mutations never despawn anything themselves: they only emit
//! events (took damage, healed, died), and listener passes decide what
//! those imply. Events carry the kind of entity and its identifier as one
//! tagged record, dispatched through a single queue that consumers filter.
//!
//! A `TickInput` is everything the host hands the simulation for one tick:
//! the elapsed frame time, the abstract input state, and the overlap sets
//! the physics collaborator reported before the tick's passes run.

use crate::vec2::Vec2i;
use vstd::prelude::*;

verus! {

/// Which kind of combatant an event is about.
#[derive(Clone, Copy, Debug, PartialEq, Eq, Structural)]
pub enum EntityKind {
    Player,
    Enemy,
}

/// What happened to it.
#[derive(Clone, Copy, Debug, PartialEq, Eq, Structural)]
pub enum EventKind {
    TookDamage,
    Healed,
    Died,
}

/// One domain event: something happened to one entity.
#[derive(Clone, Copy, Debug, PartialEq, Eq, Structural)]
pub struct EntityEvent {
    pub kind: EntityKind,
    pub event: EventKind,
    pub entity: u64,
}

impl EntityEvent {
    pub fn new(kind: EntityKind, event: EventKind, entity: u64) -> (e: EntityEvent)
        ensures
            e == (EntityEvent { kind, event, entity }),
    {
        EntityEvent { kind, event, entity }
    }
}

/// A reported overlap between a projectile and a potential target, in the
/// order the physics collaborator reported them.
#[derive(Clone, Copy, Debug, PartialEq, Eq, Structural)]
pub struct ProjectileHitEvent {
    pub projectile: u64,
    pub target: u64,
}

impl ProjectileHitEvent {
    pub fn new(projectile: u64, target: u64) -> (e: ProjectileHitEvent)
        ensures
            e == (ProjectileHitEvent { projectile, target }),
    {
        ProjectileHitEvent { projectile, target }
    }
}

/// An enemy overlapping the player this tick.
#[derive(Clone, Copy, Debug, PartialEq, Eq, Structural)]
pub struct EnemyTouchedPlayerEvent {
    pub enemy: u64,
}

impl EnemyTouchedPlayerEvent {
    pub fn new(enemy: u64) -> (e: EnemyTouchedPlayerEvent)
        ensures
            e == (EnemyTouchedPlayerEvent { enemy }),
    {
        EnemyTouchedPlayerEvent { enemy }
    }
}

/// Everything the host supplies for one simulated tick.
pub struct TickInput {
    /// Elapsed frame time, in milliseconds.
    pub dt_ms: u64,
    /// Movement intent, in thousandths of a unit vector.
    pub move_dir: Vec2i,
    /// Dash action just pressed this tick.
    pub dash_pressed: bool,
    /// Shoot action held this tick.
    pub shoot_pressed: bool,
    /// Cursor position in world units, where shots are aimed.
    pub aim: Vec2i,
    /// Projectile/target overlaps, in reported order.
    pub projectile_hits: Vec<ProjectileHitEvent>,
    /// Identifiers of enemies overlapping the player.
    pub enemy_touches: Vec<u64>,
    /// Identifiers of experience pickups overlapping the collection sensor.
    pub xp_contacts: Vec<u64>,
    /// Identifiers of healing pickups overlapping the player.
    pub heal_contacts: Vec<u64>,
}

impl TickInput {
    /// What the simulation asks of a tick's input: a bounded frame time
    /// and a movement intent no longer than one unit.
    pub open spec fn wf(self) -> bool {
        &&& 0 < self.dt_ms <= 60000
        &&& self.move_dir.bounded(1000)
        &&& self.aim.bounded(crate::vec2::POS_LIMIT as int)
    }

    /// A quiet tick: time passes, nothing is pressed, nothing overlaps.
    pub fn idle(dt_ms: u64) -> (input: TickInput)
        requires
            0 < dt_ms <= 60000,
        ensures
            input.wf(),
            input.dt_ms == dt_ms,
            input.move_dir == (Vec2i { x: 0, y: 0 }),
            !input.dash_pressed,
            !input.shoot_pressed,
            input.projectile_hits@ == Seq::<ProjectileHitEvent>::empty(),
            input.enemy_touches@ == Seq::<u64>::empty(),
            input.xp_contacts@ == Seq::<u64>::empty(),
            input.heal_contacts@ == Seq::<u64>::empty(),
    {
        TickInput {
            dt_ms,
            move_dir: Vec2i { x: 0, y: 0 },
            dash_pressed: false,
            shoot_pressed: false,
            aim: Vec2i { x: 0, y: 0 },
            projectile_hits: Vec::new(),
            enemy_touches: Vec::new(),
            xp_contacts: Vec::new(),
            heal_contacts: Vec::new(),
        }
    }
}

} // verus!
