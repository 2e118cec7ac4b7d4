use arena_sim::ENEMY_BASE_HP;
use arena_sim::ENEMY_SPAWN_DISTANCE;
use arena_sim::EnemySpawner;
use arena_sim::Vec2i;
use arena_sim::angle_from_player;
use arena_sim::random_angle;
use arena_sim::scaled_enemy_health;

#[test]
fn spawn_delay_always_inside_the_window() {
    for _ in 0..50 {
        let t = EnemySpawner::get_timer(1000, 2000);
        assert!(1000 <= t.duration_ms && t.duration_ms < 2000);
        assert_eq!(t.elapsed_ms, 0);
    }
}

#[test]
fn spawn_delay_is_actually_drawn() {
    let mut distinct = Vec::new();
    for _ in 0..30 {
        let t = EnemySpawner::get_timer(1000, 2000);
        if !distinct.contains(&t.duration_ms) {
            distinct.push(t.duration_ms);
        }
    }
    assert!(distinct.len() >= 2, "every drawn delay was identical");
}

#[test]
fn spawner_redraw_keeps_the_window() {
    let mut s = EnemySpawner::new(1000, 2000);
    for _ in 0..20 {
        assert!(1000 <= s.timer.duration_ms && s.timer.duration_ms < 2000);
        s.update();
    }
}

#[test]
fn spawner_never_fires_before_its_delay() {
    let mut s = EnemySpawner::new(1000, 2000);
    let mut waited: u64 = 0;
    loop {
        let due = s.tick(100);
        waited += 100;
        if due {
            break;
        }
        assert!(waited < 2000);
    }
    assert!(waited >= 1000);
    assert!(waited < 2000 + 100);
}

#[test]
fn enemy_spawns_at_distance_400_at_angle_zero() {
    let pos = angle_from_player(Vec2i { x: 0, y: 0 }, ENEMY_SPAWN_DISTANCE, 0);
    assert_eq!(pos, Vec2i { x: 400, y: 0 });
}

#[test]
fn spawn_placement_at_cardinal_angles() {
    let origin = Vec2i { x: 0, y: 0 };
    assert_eq!(angle_from_player(origin, 400, 9000), Vec2i { x: 0, y: 400 });
    assert_eq!(angle_from_player(origin, 400, 18000), Vec2i { x: -400, y: 0 });
    assert_eq!(angle_from_player(origin, 400, 27000), Vec2i { x: 0, y: -400 });
    let off = angle_from_player(Vec2i { x: 10, y: -20 }, 400, 0);
    assert_eq!(off, Vec2i { x: 410, y: -20 });
}

#[test]
fn random_placement_stays_near_the_spawn_circle() {
    let player = Vec2i { x: 100, y: 200 };
    for _ in 0..50 {
        let pos = random_angle(player, ENEMY_SPAWN_DISTANCE);
        let dx = (pos.x - player.x) as i128;
        let dy = (pos.y - player.y) as i128;
        let d2 = dx * dx + dy * dy;
        // the rotation is fixed point, so allow a small truncation band
        assert!(d2 <= 401 * 401, "spawned too far: {}", d2);
        assert!(d2 >= 395 * 395, "spawned too close: {}", d2);
    }
}

#[test]
fn difficulty_scaling_of_enemy_health() {
    assert_eq!(scaled_enemy_health(ENEMY_BASE_HP, 0), 15);
    assert_eq!(scaled_enemy_health(ENEMY_BASE_HP, 59_999), 15);
    // one and two elapsed minutes still sit at the floor of one
    assert_eq!(scaled_enemy_health(ENEMY_BASE_HP, 60_000), 15);
    assert_eq!(scaled_enemy_health(ENEMY_BASE_HP, 120_000), 15);
    // three minutes: 15 * 3 / 2, rounded down
    assert_eq!(scaled_enemy_health(ENEMY_BASE_HP, 180_000), 22);
    // six minutes: 15 * 6 / 2
    assert_eq!(scaled_enemy_health(ENEMY_BASE_HP, 360_000), 45);
}

#[test]
fn difficulty_scaling_never_decreases_over_a_session() {
    let mut last: u32 = 0;
    for minutes in 0..30u64 {
        let hp = scaled_enemy_health(ENEMY_BASE_HP, minutes * 60_000);
        assert!(hp >= last);
        assert!(hp >= ENEMY_BASE_HP);
        last = hp;
    }
}
