//! Entity-level behaviour: movement rules, clamping and bounding rectangles.

use shooter::entities::{Enemy, Footprint, Player, PlayerState, Rect, Shot, Vec2};
use shooter::{PIXEL, SECOND};

const PX: i64 = PIXEL;

#[test]
fn shot_moves_straight_up() {
    let mut shot = Shot::new(Vec2 { x: 100 * PX, y: 100 * PX });
    assert!(shot.is_alive);
    shot.update(SECOND);
    // 500 pixels per second for one second, straight up.
    assert_eq!(shot.pos.x, 100 * PX);
    assert_eq!(shot.pos.y, 100 * PX - 500 * PX);
    assert!(shot.is_alive);
}

#[test]
fn shot_moves_up_each_small_step() {
    let mut shot = Shot::new(Vec2 { x: 7 * PX, y: 900 * PX });
    let mut last_y = shot.pos.y;
    for _ in 0..10 {
        shot.update(1);
        assert!(shot.pos.y < last_y);
        assert_eq!(shot.pos.x, 7 * PX);
        last_y = shot.pos.y;
    }
}

#[test]
fn enemy_moves_straight_down() {
    let fp = Footprint { width: 50 * PX, height: 50 * PX };
    let mut enemy = Enemy::new(String::from("Bloat"), Vec2 { x: 10 * PX, y: 0 }, 100, fp);
    assert!(enemy.is_alive);
    enemy.update(30);
    // 100 pixels per second for half a second: 50 pixels down.
    assert_eq!(enemy.pos.x, 10 * PX);
    assert_eq!(enemy.pos.y, 50 * PX);
}

#[test]
fn enemy_label_is_kept() {
    let fp = Footprint { width: 10 * PX, height: 10 * PX };
    let enemy = Enemy::new(String::from("Data Races"), Vec2 { x: 0, y: 0 }, 60, fp);
    assert_eq!(enemy.label(), "Data Races");
}

#[test]
fn player_full_intent_clamps_at_right_edge() {
    // Player at x=500 px on a 1000 px screen, full intent right, one second
    // at 500 px/s: the result is the clamped 1000, not 1500.
    let mut player = Player::new(Vec2 { x: 500 * PX, y: 1000 * PX });
    player.update(1000, SECOND, 1000 * PX);
    assert_eq!(player.pos.x, 1000 * PX);
    assert_eq!(player.pos.y, 1000 * PX);
}

#[test]
fn player_clamps_at_left_edge() {
    let mut player = Player::new(Vec2 { x: 100 * PX, y: 1000 * PX });
    player.update(-1000, SECOND, 1000 * PX);
    assert_eq!(player.pos.x, 0);
}

#[test]
fn player_clamps_for_intents_outside_unit_range() {
    // An intent of magnitude 2 (twice the nominal maximum) still lands
    // inside [0, max_right].
    let mut player = Player::new(Vec2 { x: 500 * PX, y: 1000 * PX });
    player.update(2000, SECOND, 1000 * PX);
    assert_eq!(player.pos.x, 1000 * PX);

    let mut player = Player::new(Vec2 { x: 500 * PX, y: 1000 * PX });
    player.update(-9999, SECOND, 1000 * PX);
    assert_eq!(player.pos.x, 0);
}

#[test]
fn player_partial_intent_moves_exactly() {
    // Half intent for one second: 250 pixels.
    let mut player = Player::new(Vec2 { x: 100 * PX, y: 1000 * PX });
    player.update(500, SECOND, 1000 * PX);
    assert_eq!(player.pos.x, 350 * PX);
}

#[test]
fn player_starts_with_full_cooldown() {
    let player = Player::new(Vec2 { x: 0, y: 0 });
    assert_eq!(player.time_until_next_shot, shooter::SHOT_TIMEOUT);
    assert!(matches!(player.state, PlayerState::Normal));
}

#[test]
fn bounding_rect_matches_position_and_footprint() {
    let fp = Footprint { width: 50 * PX, height: 40 * PX };
    let enemy = Enemy::new(String::from("NULLs"), Vec2 { x: 90 * PX, y: 80 * PX }, 60, fp);
    let rect = enemy.bounding_rect();
    assert_eq!(rect.x, 90 * PX);
    assert_eq!(rect.y, 80 * PX);
    assert_eq!(rect.w, 50 * PX);
    assert_eq!(rect.h, 40 * PX);
}

#[test]
fn rect_contains_is_edge_inclusive() {
    let rect = Rect { x: 90 * PX, y: 90 * PX, w: 50 * PX, h: 50 * PX };
    assert!(rect.contains(Vec2 { x: 100 * PX, y: 100 * PX }));
    assert!(rect.contains(Vec2 { x: 90 * PX, y: 90 * PX }));
    assert!(rect.contains(Vec2 { x: 140 * PX, y: 140 * PX }));
    assert!(!rect.contains(Vec2 { x: 140 * PX + 1, y: 100 * PX }));
    assert!(!rect.contains(Vec2 { x: 100 * PX, y: 89 * PX }));
}
