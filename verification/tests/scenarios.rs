use arena_sim::CountdownTimer;
use arena_sim::EnemyState;
use arena_sim::EntityKind;
use arena_sim::EventKind;
use arena_sim::Health;
use arena_sim::PickupKind;
use arena_sim::PickupState;
use arena_sim::ProjectileHitEvent;
use arena_sim::ProjectilePhase;
use arena_sim::ProjectileState;
use arena_sim::TickInput;
use arena_sim::Vec2i;
use arena_sim::World;

fn idle(dt_ms: u64) -> TickInput {
    TickInput::idle(dt_ms)
}

fn enemy(id: u64, x: i64, y: i64, hp: u32) -> EnemyState {
    EnemyState {
        id,
        pos: Vec2i { x, y },
        vel: Vec2i { x: 0, y: 0 },
        health: Health::new(hp),
    }
}

fn projectile(id: u64, damage: u32) -> ProjectileState {
    ProjectileState {
        id,
        pos: Vec2i { x: 0, y: 0 },
        vel: Vec2i { x: 0, y: 0 },
        dir_milli: Vec2i { x: 1000, y: 0 },
        damage,
        lifetime: CountdownTimer { elapsed_ms: 0, duration_ms: 4000 },
        phase: ProjectilePhase::Active,
    }
}

#[test]
fn enemy_at_angle_zero_walks_toward_the_origin() {
    let mut w = World::new();
    w.enemies.push(enemy(7, 400, 0, 1_000_000));
    w.next_id = 8;
    let mut last_x: i64 = 400;
    for _ in 0..8 {
        w.tick(&idle(100));
        let e = w
            .enemies
            .iter()
            .find(|e| e.id == 7)
            .expect("the watched enemy vanished");
        assert!(e.pos.x <= last_x, "enemy moved away from the player");
        assert_eq!(e.pos.y, 0, "enemy strayed off the axis");
        last_x = e.pos.x;
    }
    assert!(last_x < 330, "enemy never closed in: {}", last_x);
}

#[test]
fn contact_damage_is_gated_by_invulnerability() {
    let mut w = World::new();
    w.enemies.push(enemy(1, 100, 0, 1_000_000));
    w.next_id = 2;
    assert_eq!(w.player.health.cur_hp, 15);
    for _ in 0..3 {
        let mut input = idle(16);
        input.enemy_touches = vec![1];
        w.tick(&input);
    }
    // the first touch dealt 5 and granted invulnerability; the second and
    // third touches fell inside the window
    assert_eq!(w.player.health.cur_hp, 10);
    assert!(w.player.invuln.is_some());
}

#[test]
fn contact_damage_resumes_after_the_window_elapses() {
    let mut w = World::new();
    w.enemies.push(enemy(1, 100, 0, 1_000_000));
    w.next_id = 2;
    let mut input = idle(16);
    input.enemy_touches = vec![1];
    w.tick(&input);
    assert_eq!(w.player.health.cur_hp, 10);
    // let the whole invulnerability window pass with no contact
    for _ in 0..30 {
        w.tick(&idle(100));
    }
    assert!(w.player.invuln.is_none());
    let mut again = idle(16);
    again.enemy_touches = vec![1];
    w.tick(&again);
    assert_eq!(w.player.health.cur_hp, 5);
}

#[test]
fn three_hits_of_five_kill_a_fifteen_point_enemy_exactly_once() {
    let mut w = World::new();
    w.enemies.push(enemy(10, 200, 0, 15));
    w.projectiles.push(projectile(1, 5));
    w.projectiles.push(projectile(2, 5));
    w.projectiles.push(projectile(3, 5));
    w.next_id = 20;
    let mut input = idle(16);
    input.projectile_hits = vec![
        ProjectileHitEvent::new(1, 10),
        ProjectileHitEvent::new(2, 10),
        ProjectileHitEvent::new(3, 10),
    ];
    let events = w.tick(&input);
    let took: Vec<_> = events
        .iter()
        .filter(|e| e.kind == EntityKind::Enemy && e.event == EventKind::TookDamage)
        .collect();
    let died: Vec<_> = events
        .iter()
        .filter(|e| e.kind == EntityKind::Enemy && e.event == EventKind::Died)
        .collect();
    assert_eq!(took.len(), 3);
    assert_eq!(died.len(), 1, "death must be emitted exactly once");
    assert_eq!(died[0].entity, 10);
    assert!(w.enemies.iter().all(|e| e.id != 10), "dead enemy lingered");
    assert_eq!(w.pickups.len(), 1, "exactly one pickup per death");
    assert!(w.projectiles.is_empty(), "consumed projectiles must flush");
}

#[test]
fn a_projectile_damages_at_most_one_target() {
    let mut w = World::new();
    w.enemies.push(enemy(10, 200, 0, 100));
    w.enemies.push(enemy(11, 210, 0, 100));
    w.projectiles.push(projectile(1, 5));
    w.next_id = 20;
    let mut input = idle(16);
    input.projectile_hits = vec![
        ProjectileHitEvent::new(1, 10),
        ProjectileHitEvent::new(1, 11),
    ];
    let events = w.tick(&input);
    let first = w.enemies.iter().find(|e| e.id == 10).unwrap();
    let second = w.enemies.iter().find(|e| e.id == 11).unwrap();
    assert_eq!(first.health.cur_hp, 95, "first reported target takes the hit");
    assert_eq!(second.health.cur_hp, 100, "one bullet never hits twice");
    let damage_events = events
        .iter()
        .filter(|e| e.kind == EntityKind::Enemy && e.event == EventKind::TookDamage)
        .count();
    assert_eq!(damage_events, 1);
}

#[test]
fn a_hit_on_a_vanished_target_is_a_noop() {
    let mut w = World::new();
    w.projectiles.push(projectile(1, 5));
    w.next_id = 20;
    let mut input = idle(16);
    input.projectile_hits = vec![ProjectileHitEvent::new(1, 777)];
    let events = w.tick(&input);
    assert!(events.is_empty());
    // the projectile stays active and in flight
    assert_eq!(w.projectiles.len(), 1);
}

#[test]
fn bullets_expire_after_their_lifetime() {
    let mut w = World::new();
    w.projectiles.push(projectile(1, 5));
    w.next_id = 20;
    w.tick(&idle(3999));
    assert_eq!(w.projectiles.len(), 1);
    w.tick(&idle(16));
    assert!(w.projectiles.is_empty());
}

#[test]
fn shooting_spawns_one_bullet_per_cooldown() {
    let mut w = World::new();
    let mut input = idle(16);
    input.shoot_pressed = true;
    input.aim = Vec2i { x: 100, y: 0 };
    w.tick(&input);
    assert_eq!(w.projectiles.len(), 1);
    let dir = w.projectiles[0].dir_milli;
    assert!(dir.x > 900, "shot should fly toward the aim: {:?}", dir);
    assert_eq!(w.projectiles[0].damage, 5);
    // still cooling down: no second bullet
    let mut held = idle(16);
    held.shoot_pressed = true;
    held.aim = Vec2i { x: 100, y: 0 };
    w.tick(&held);
    assert_eq!(w.projectiles.len(), 1);
    // after the cooldown has passed the next shot fires
    let mut wait = idle(300);
    wait.shoot_pressed = false;
    w.tick(&wait);
    let mut again = idle(16);
    again.shoot_pressed = true;
    again.aim = Vec2i { x: 100, y: 0 };
    w.tick(&again);
    assert_eq!(w.projectiles.len(), 2);
}

#[test]
fn collecting_xp_levels_the_player_up_once() {
    let mut w = World::new();
    for id in 1..=7u64 {
        w.pickups.push(PickupState {
            id,
            pos: Vec2i { x: 0, y: 0 },
            kind: PickupKind::XpCrumb,
            value: 5,
        });
    }
    w.next_id = 20;
    let mut input = idle(16);
    input.xp_contacts = vec![1, 2, 3, 4, 5, 6, 7];
    w.tick(&input);
    // 35 experience crossed the threshold of 30: one level-up, excess
    // discarded, threshold grown by half
    assert_eq!(w.level.cur_level, 2);
    assert_eq!(w.level.cur_xp, 0);
    assert_eq!(w.level.next_level_threshold, 45);
    assert!(w.pickups.is_empty());
}

#[test]
fn healing_pickup_restores_health_and_despawns() {
    let mut w = World::new();
    w.player.health.cur_hp = 5;
    w.pickups.push(PickupState {
        id: 1,
        pos: Vec2i { x: 0, y: 0 },
        kind: PickupKind::HealingCrumb,
        value: 5,
    });
    w.next_id = 20;
    let mut input = idle(16);
    input.heal_contacts = vec![1];
    let events = w.tick(&input);
    assert_eq!(w.player.health.cur_hp, 10);
    assert!(w.pickups.is_empty());
    assert!(events
        .iter()
        .any(|e| e.kind == EntityKind::Player && e.event == EventKind::Healed));
}

#[test]
fn xp_contacts_leave_healing_pickups_alone() {
    let mut w = World::new();
    w.pickups.push(PickupState {
        id: 1,
        pos: Vec2i { x: 0, y: 0 },
        kind: PickupKind::HealingCrumb,
        value: 5,
    });
    w.next_id = 20;
    let mut input = idle(16);
    input.xp_contacts = vec![1];
    w.tick(&input);
    assert_eq!(w.pickups.len(), 1);
    assert_eq!(w.level.cur_xp, 0);
}

#[test]
fn the_weighting_roll_splits_ninety_to_ten() {
    for roll in 0..90u64 {
        assert_eq!(World::crumb_kind_for_roll(roll), PickupKind::XpCrumb);
    }
    for roll in 90..100u64 {
        assert_eq!(World::crumb_kind_for_roll(roll), PickupKind::HealingCrumb);
    }
}

#[test]
fn every_dropped_crumb_carries_its_fixed_value() {
    let mut w = World::new();
    for _ in 0..100 {
        w.spawn_crumb(Vec2i { x: 1, y: 2 });
    }
    assert_eq!(w.pickups.len(), 100);
    let mut xp: u32 = 0;
    for p in w.pickups.iter() {
        match p.kind {
            PickupKind::XpCrumb => {
                xp += 1;
                assert_eq!(p.value, 5);
            }
            PickupKind::HealingCrumb => {
                assert_eq!(p.value, 5);
            }
        }
        assert_eq!(p.pos, Vec2i { x: 1, y: 2 });
    }
    assert!(xp > 50, "experience crumbs should dominate the drops");
}

#[test]
fn spawner_produces_enemies_with_bounded_cadence() {
    let mut w = World::new();
    let mut last_spawn_ms: Option<u64> = None;
    let mut seen = 0usize;
    let mut clock: u64 = 0;
    for _ in 0..100 {
        w.tick(&idle(100));
        clock += 100;
        if w.enemies.len() > seen {
            seen = w.enemies.len();
            if let Some(prev) = last_spawn_ms {
                let gap = clock - prev;
                assert!(gap >= 1000, "two spawns only {} ms apart", gap);
                assert!(gap < 2000 + 100, "spawn overdue by {} ms", gap);
            }
            last_spawn_ms = Some(clock);
        }
    }
    assert!(seen >= 3, "expected several spawns in ten seconds");
}

#[test]
fn knockback_queues_a_push_away_from_the_enemy() {
    let mut w = World::new();
    w.enemies.push(enemy(1, 100, 0, 1_000_000));
    w.next_id = 2;
    let mut input = idle(16);
    input.enemy_touches = vec![1];
    w.tick(&input);
    // the push away from an enemy to the right is leftward, and the
    // movement pass of this tick already ran, so it sits queued
    let p = w.player.pushed.expect("no push was queued");
    assert!(p.x < 0);
    assert_eq!(p.y, 0);
}

#[test]
fn player_blinks_while_invulnerable_and_ends_visible() {
    let mut w = World::new();
    w.enemies.push(enemy(1, 100, 0, 1_000_000));
    w.next_id = 2;
    let mut input = idle(16);
    input.enemy_touches = vec![1];
    w.tick(&input);
    assert!(w.player.invuln.is_some());
    let mut saw_hidden = false;
    for _ in 0..30 {
        w.tick(&idle(100));
        if !w.player_visible() {
            saw_hidden = true;
        }
    }
    assert!(saw_hidden, "the flicker never hid the player");
    assert!(w.player.invuln.is_none());
    assert!(w.player_visible(), "expiry must leave the player visible");
}
