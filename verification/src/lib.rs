//! Engine-agnostic core of a top-down 2D arena survival game.
//!
//! The library models the gameplay rules only: health and damage, status
//! timers (cooldowns, invulnerability, blink), combat resolution between
//! projectiles and hurtboxes, enemy spawning with difficulty scaling,
//! pickups and leveling, and player/enemy contact with knockback.
//! Rendering, input polling and rigid-body physics are host concerns: the
//! simulation consumes elapsed frame time, an abstract input state and the
//! overlap sets the physics collaborator reports, and produces positions,
//! velocities and visibility for the host to draw.
//!
//! All quantities are integers: hit points and damage are whole points,
//! time is in milliseconds, and directions are in thousandths of a unit
//! vector, so every rule is exact and verifiable.

mod blink;
mod events;
mod health;
mod healthbar;
mod progression;
mod rng;
mod spawner;
mod timer;
mod vec2;
mod world;

pub use blink::BlinkState;
pub use events::EnemyTouchedPlayerEvent;
pub use events::EntityEvent;
pub use events::EntityKind;
pub use events::EventKind;
pub use events::ProjectileHitEvent;
pub use events::TickInput;
pub use health::Health;
pub use health::HealthOp;
pub use healthbar::healthbar_view;
pub use healthbar::HealthbarView;
pub use healthbar::HEALTHBAR_WIDTH;
pub use progression::PlayerLevel;
pub use progression::ProgressOp;
pub use spawner::angle_from_player;
pub use spawner::random_angle;
pub use spawner::scaled_enemy_health;
pub use spawner::EnemySpawner;
pub use timer::CountdownTimer;
pub use vec2::cos_cmil;
pub use vec2::isqrt;
pub use vec2::sin_cmil;
pub use vec2::Vec2i;
pub use world::EnemyState;
pub use world::PickupKind;
pub use world::PickupState;
pub use world::PlayerState;
pub use world::ProjectilePhase;
pub use world::ProjectileState;
pub use world::ShootEvent;
pub use world::World;
pub use world::COLLECTION_RADIUS;
pub use world::CONTACT_DAMAGE;
pub use world::ENEMY_BASE_HP;
pub use world::ENEMY_SPAWN_DISTANCE;
pub use world::HEAL_CRUMB_AMOUNT;
pub use world::INVULN_DURATION_MS;
pub use world::PLAYER_MAX_HP;
pub use world::PROJECTILE_DAMAGE;
pub use world::SHOOT_COOLDOWN_MS;
pub use world::XP_CRUMB_VALUE;
