use arena_sim::BlinkState;
use arena_sim::CountdownTimer;
use arena_sim::Health;
use arena_sim::HealthbarView;
use arena_sim::PlayerLevel;
use arena_sim::Vec2i;
use arena_sim::cos_cmil;
use arena_sim::healthbar_view;
use arena_sim::isqrt;
use arena_sim::sin_cmil;

#[test]
fn health_damage_and_heal_clamp() {
    let mut h = Health::new(15);
    assert_eq!(h.cur_hp, 15);
    assert_eq!(h.max_hp, 15);
    h.take_damage(5);
    assert_eq!(h.cur_hp, 10);
    h.take_damage(100);
    assert_eq!(h.cur_hp, 0);
    assert!(h.is_dead());
    h.heal(7);
    assert_eq!(h.cur_hp, 7);
    h.heal(1000);
    assert_eq!(h.cur_hp, 15);
    assert!(!h.is_dead());
}

#[test]
fn health_stays_in_range_under_random_walk() {
    let mut h = Health::new(40);
    let amounts = [3u32, 50, 7, 0, 41, 2, 9, 60, 1, 40];
    for (i, a) in amounts.iter().enumerate() {
        if i % 2 == 0 {
            h.take_damage(*a);
        } else {
            h.heal(*a);
        }
        assert!(h.cur_hp <= h.max_hp);
    }
}

#[test]
fn remaining_fraction_is_permille() {
    let h = Health { cur_hp: 10, max_hp: 15 };
    assert_eq!(h.remaining_fraction(), 666);
    let full = Health::new(15);
    assert_eq!(full.remaining_fraction(), 1000);
    let empty = Health { cur_hp: 0, max_hp: 15 };
    assert_eq!(empty.remaining_fraction(), 0);
}

#[test]
fn countdown_timer_finishes_once_duration_elapsed() {
    let mut t = CountdownTimer::new(250);
    assert!(!t.finished());
    assert!(!t.tick(100));
    assert!(!t.tick(100));
    assert!(t.tick(100));
    assert!(t.finished());
    assert_eq!(t.elapsed_ms, 250);
    t.reset();
    assert!(!t.finished());
    assert_eq!(t.elapsed_ms, 0);
}

#[test]
fn blink_toggles_and_ends_fully_visible() {
    let mut b = BlinkState::new(2000, 5);
    assert_eq!(b.blinks_left, 10);
    assert!(b.visible);
    assert_eq!(b.blink_timer.duration_ms, 200);
    let mut saw_hidden = false;
    let mut toggles: u32 = 0;
    loop {
        let expired = b.tick(130);
        if !b.visible {
            saw_hidden = true;
        }
        if expired {
            break;
        }
        toggles += 1;
        assert!(toggles < 100, "blink never expired");
    }
    assert!(saw_hidden);
    assert!(b.visible);
    assert_eq!(b.blinks_left, 0);
}

#[test]
fn blink_ends_visible_for_odd_frequency_too() {
    let mut b = BlinkState::new(900, 3);
    assert_eq!(b.blinks_left, 6);
    loop {
        if b.tick(150) {
            break;
        }
    }
    assert!(b.visible);
}

#[test]
fn blink_accepts_large_frequencies() {
    let b = BlinkState::new(4000, 2000);
    assert_eq!(b.blinks_left, 4000);
    assert_eq!(b.blink_timer.duration_ms, 1);
    assert!(b.visible);
}

#[test]
fn leveling_threshold_grows_by_half() {
    let mut p = PlayerLevel::default();
    assert_eq!(p.cur_level, 1);
    assert_eq!(p.next_level_threshold, 30);
    p.add_xp(30);
    assert!(p.update_level());
    assert_eq!(p.cur_level, 2);
    assert_eq!(p.cur_xp, 0);
    assert_eq!(p.next_level_threshold, 45);
    p.add_xp(45);
    assert!(p.update_level());
    assert_eq!(p.next_level_threshold, 67);
    p.add_xp(66);
    assert!(!p.update_level());
    assert_eq!(p.cur_level, 3);
}

#[test]
fn excess_xp_is_discarded_on_level_up() {
    let mut p = PlayerLevel::default();
    p.add_xp(35);
    assert!(p.update_level());
    assert_eq!(p.cur_level, 2);
    assert_eq!(p.cur_xp, 0);
}

#[test]
fn one_check_levels_at_most_once() {
    let mut p = PlayerLevel::default();
    p.add_xp(10_000);
    assert!(p.update_level());
    assert_eq!(p.cur_level, 2);
    assert!(!p.update_level());
    assert_eq!(p.cur_level, 2);
}

#[test]
fn healthbar_width_tracks_remaining_health() {
    let v: HealthbarView = healthbar_view(&Health { cur_hp: 10, max_hp: 15 });
    assert_eq!(v.width, 32);
    assert_eq!(v.remaining_width, 21);
    assert_eq!(v.offset_x, -5);
    let full = healthbar_view(&Health::new(15));
    assert_eq!(full.remaining_width, 32);
    assert_eq!(full.offset_x, 0);
    let empty = healthbar_view(&Health { cur_hp: 0, max_hp: 15 });
    assert_eq!(empty.remaining_width, 0);
    assert_eq!(empty.offset_x, -16);
}

#[test]
fn integer_square_root_brackets_its_input() {
    assert_eq!(isqrt(0), 0);
    assert_eq!(isqrt(1), 1);
    assert_eq!(isqrt(15), 3);
    assert_eq!(isqrt(16), 4);
    assert_eq!(isqrt(400 * 400), 400);
    assert_eq!(isqrt(u64::MAX), 4_294_967_295);
}

#[test]
fn fixed_point_trig_is_exact_at_quarter_turns() {
    assert_eq!(sin_cmil(0), 0);
    assert_eq!(sin_cmil(9000), 1000);
    assert_eq!(sin_cmil(18000), 0);
    assert_eq!(sin_cmil(27000), -1000);
    assert_eq!(cos_cmil(0), 1000);
    assert_eq!(cos_cmil(9000), 0);
    assert_eq!(cos_cmil(18000), -1000);
    assert_eq!(cos_cmil(27000), 0);
    for a in (0..36000).step_by(500) {
        let s = sin_cmil(a);
        let c = cos_cmil(a);
        assert!(-1000 <= s && s <= 1000);
        assert!(-1000 <= c && c <= 1000);
    }
}

#[test]
fn direction_normalization_points_along_axes() {
    let east = Vec2i { x: 250, y: 0 }.dir_milli();
    assert_eq!(east, Vec2i { x: 1000, y: 0 });
    let north = Vec2i { x: 0, y: 3 }.dir_milli();
    assert_eq!(north, Vec2i { x: 0, y: 1000 });
    let diag = Vec2i { x: -400, y: -400 }.dir_milli();
    assert!(diag.x < -700 && diag.x > -1000);
    assert_eq!(diag.x, diag.y);
}
