//! Whole-simulation behaviour: construction, the fixed step, escapes,
//! collisions, pruning and the randomized spawner.

use shooter::entities::{Enemy, Footprint, Shot, Vec2};
use shooter::world::{ConfigError, InputState, Sound, SpawnParams, World, enemy_labels};
use shooter::{PIXEL, SECOND};

const PX: i64 = PIXEL;

fn footprints_for(labels: &[String]) -> Vec<Footprint> {
    labels.iter().map(|_| Footprint { width: 50 * PX, height: 50 * PX }).collect()
}

fn test_world(debug_mode: bool) -> World {
    let labels = enemy_labels();
    let footprints = footprints_for(&labels);
    World::new(1000 * PX, 1000 * PX, debug_mode, labels, footprints).unwrap()
}

fn idle() -> InputState {
    InputState::default()
}

fn firing() -> InputState {
    InputState { movement: 0, fire: true }
}

#[test]
fn new_world_starts_at_bottom_middle() {
    let w = test_world(false);
    assert!(!w.game_over);
    assert_eq!(w.killed_by, "");
    assert_eq!(w.score, 0);
    assert_eq!(w.player.pos.x, 500 * PX);
    assert_eq!(w.player.pos.y, 1000 * PX);
    assert_eq!(w.player.time_until_next_shot, shooter::SHOT_TIMEOUT);
    assert_eq!(w.time_until_next_enemy, shooter::FIRST_SPAWN_DELAY);
    assert!(w.shots.is_empty());
    assert!(w.enemies.is_empty());
}

#[test]
fn new_world_rejects_narrow_screen() {
    let labels = enemy_labels();
    let footprints = footprints_for(&labels);
    // No room for the 100-pixel spawn margin.
    let r = World::new(100 * PX, 1000 * PX, false, labels, footprints);
    assert_eq!(r.unwrap_err(), ConfigError::BadDimensions);
}

#[test]
fn new_world_rejects_empty_label_table() {
    let r = World::new(1000 * PX, 1000 * PX, false, Vec::new(), Vec::new());
    assert_eq!(r.unwrap_err(), ConfigError::NoLabels);
}

#[test]
fn new_world_rejects_oversized_label_table() {
    let labels: Vec<String> = (0..1_000_001).map(|_| String::from("x")).collect();
    let footprints = footprints_for(&labels);
    let r = World::new(1000 * PX, 1000 * PX, false, labels, footprints);
    assert_eq!(r.unwrap_err(), ConfigError::TooManyLabels);
}

#[test]
fn new_world_rejects_mismatched_footprint_table() {
    let labels = enemy_labels();
    let mut footprints = footprints_for(&labels);
    footprints.pop();
    let r = World::new(1000 * PX, 1000 * PX, false, labels, footprints);
    assert_eq!(r.unwrap_err(), ConfigError::MissingFootprint);
}

#[test]
fn new_world_rejects_negative_footprint() {
    let labels = enemy_labels();
    let mut footprints = footprints_for(&labels);
    footprints[2] = Footprint { width: -1, height: 10 * PX };
    let r = World::new(1000 * PX, 1000 * PX, false, labels, footprints);
    assert_eq!(r.unwrap_err(), ConfigError::BadFootprint);
}

#[test]
fn held_fire_yields_exactly_one_shot_in_sixty_one_steps() {
    // Cooldown starts at one second; at 1/60 s per step the counter first
    // goes negative on the 61st step, so exactly one shot is fired.
    let mut w = test_world(false);
    assert_eq!(w.time_until_next_enemy, 60);
    let mut shots_seen = 0;
    for step in 1..=61 {
        let due = w.time_until_next_enemy - 1 <= 0;
        let spawn = if due {
            Some(SpawnParams { x: 0, label_index: 0, speed: 100, next_delay: 600 })
        } else {
            None
        };
        let sounds = w.step_with_spawn(firing(), 1, spawn);
        shots_seen += sounds.iter().filter(|s| **s == Sound::FireShot).count();
        if step <= 60 {
            assert_eq!(w.shots.len(), 0, "no shot before step 61");
        }
    }
    assert_eq!(w.shots.len(), 1);
    assert_eq!(shots_seen, 1);
    assert!(!w.game_over);
}

#[test]
fn enemy_past_bottom_ends_the_game() {
    // An enemy one pixel above the bottom falling at 200 px/s crosses the
    // edge within one second: the game ends and records its label.
    let mut w = test_world(false);
    let fp = Footprint { width: 50 * PX, height: 50 * PX };
    let enemy = Enemy::new(
        String::from("Segfaults"),
        Vec2 { x: 300 * PX, y: 999 * PX },
        200,
        fp,
    );
    w.enemies.push(enemy);
    w.time_until_next_enemy = 500;
    let sounds = w.step_with_spawn(idle(), SECOND, None);
    assert!(w.game_over);
    assert_eq!(w.killed_by, "Segfaults");
    assert_eq!(w.score, 0);
    assert!(sounds.contains(&Sound::EnemyEscaped));
    // The escaped enemy was not marked dead, so pruning kept it.
    assert_eq!(w.enemies.len(), 1);
}

#[test]
fn debug_mode_discards_escaped_enemy_without_ending_the_game() {
    let mut w = test_world(true);
    let fp = Footprint { width: 50 * PX, height: 50 * PX };
    let enemy = Enemy::new(
        String::from("Segfaults"),
        Vec2 { x: 300 * PX, y: 999 * PX },
        200,
        fp,
    );
    w.enemies.push(enemy);
    w.time_until_next_enemy = 500;
    let sounds = w.step_with_spawn(idle(), SECOND, None);
    assert!(!w.game_over);
    assert_eq!(w.killed_by, "");
    assert_eq!(w.score, 0);
    assert!(!sounds.contains(&Sound::EnemyEscaped));
    assert!(w.enemies.is_empty());
}

#[test]
fn last_escaping_enemy_is_recorded() {
    let mut w = test_world(false);
    let fp = Footprint { width: 10 * PX, height: 10 * PX };
    w.enemies.push(Enemy::new(String::from("Bloat"), Vec2 { x: 100 * PX, y: 999 * PX }, 200, fp));
    w.enemies.push(Enemy::new(String::from("NULLs"), Vec2 { x: 200 * PX, y: 999 * PX }, 200, fp));
    w.time_until_next_enemy = 500;
    let sounds = w.step_with_spawn(idle(), SECOND, None);
    assert!(w.game_over);
    assert_eq!(w.killed_by, "NULLs");
    assert_eq!(sounds.iter().filter(|s| **s == Sound::EnemyEscaped).count(), 2);
}

#[test]
fn overlapping_pair_dies_and_scores_once() {
    // A shot at (100, 100) inside the rectangle of an enemy at (90, 90)
    // with a 50-by-50 footprint: one pass kills both and scores one.
    let mut w = test_world(false);
    w.shots.push(Shot::new(Vec2 { x: 100 * PX, y: 100 * PX }));
    let fp = Footprint { width: 50 * PX, height: 50 * PX };
    w.enemies.push(Enemy::new(String::from("Bloat"), Vec2 { x: 90 * PX, y: 90 * PX }, 60, fp));
    let hits = w.handle_collisions();
    assert_eq!(hits, 1);
    assert_eq!(w.score, 1);
    assert!(!w.shots[0].is_alive);
    assert!(!w.enemies[0].is_alive);
}

#[test]
fn collision_score_does_not_depend_on_insertion_order() {
    let fp = Footprint { width: 50 * PX, height: 50 * PX };
    for order in 0..2 {
        let mut w = test_world(false);
        let far_shot = Shot::new(Vec2 { x: 700 * PX, y: 700 * PX });
        let hit_shot = Shot::new(Vec2 { x: 100 * PX, y: 100 * PX });
        if order == 0 {
            w.shots.push(far_shot);
            w.shots.push(hit_shot);
        } else {
            w.shots.push(hit_shot);
            w.shots.push(far_shot);
        }
        let far_enemy = Enemy::new(String::from("Bloat"), Vec2 { x: 300 * PX, y: 300 * PX }, 60, fp);
        let hit_enemy = Enemy::new(String::from("NULLs"), Vec2 { x: 90 * PX, y: 90 * PX }, 60, fp);
        if order == 0 {
            w.enemies.push(far_enemy);
            w.enemies.push(hit_enemy);
        } else {
            w.enemies.push(hit_enemy);
            w.enemies.push(far_enemy);
        }
        let hits = w.handle_collisions();
        assert_eq!(hits, 1);
        assert_eq!(w.score, 1);
    }
}

#[test]
fn one_shot_hits_at_most_the_first_overlapping_enemy() {
    // Two enemies both covering the shot's position: only the first in
    // iteration order registers the hit; the shot is then dead.
    let mut w = test_world(false);
    w.shots.push(Shot::new(Vec2 { x: 100 * PX, y: 100 * PX }));
    let fp = Footprint { width: 50 * PX, height: 50 * PX };
    w.enemies.push(Enemy::new(String::from("Bloat"), Vec2 { x: 90 * PX, y: 90 * PX }, 60, fp));
    w.enemies.push(Enemy::new(String::from("NULLs"), Vec2 { x: 80 * PX, y: 80 * PX }, 60, fp));
    let hits = w.handle_collisions();
    assert_eq!(hits, 1);
    assert_eq!(w.score, 1);
    assert!(!w.enemies[0].is_alive);
    assert!(w.enemies[1].is_alive);
    assert!(!w.shots[0].is_alive);
}

#[test]
fn empty_world_step_only_runs_the_timers() {
    let mut w = test_world(false);
    w.time_until_next_enemy = 500;
    let sounds = w.step_with_spawn(idle(), 1, None);
    assert!(sounds.is_empty());
    assert!(w.shots.is_empty());
    assert!(w.enemies.is_empty());
    assert!(!w.game_over);
    assert_eq!(w.score, 0);
    assert_eq!(w.time_until_next_enemy, 499);
    assert_eq!(w.player.time_until_next_shot, shooter::SHOT_TIMEOUT - 1);
    assert_eq!(w.player.pos.x, 500 * PX);
}

#[test]
fn dead_entities_do_not_collide() {
    let mut w = test_world(false);
    let mut shot = Shot::new(Vec2 { x: 100 * PX, y: 100 * PX });
    shot.is_alive = false;
    w.shots.push(shot);
    let fp = Footprint { width: 50 * PX, height: 50 * PX };
    w.enemies.push(Enemy::new(String::from("Bloat"), Vec2 { x: 90 * PX, y: 90 * PX }, 60, fp));
    let hits = w.handle_collisions();
    assert_eq!(hits, 0);
    assert_eq!(w.score, 0);
    assert!(w.enemies[0].is_alive);
}

#[test]
fn pruning_twice_equals_pruning_once() {
    let fp = Footprint { width: 10 * PX, height: 10 * PX };
    let mut w = test_world(false);
    w.shots.push(Shot::new(Vec2 { x: 10 * PX, y: 500 * PX }));
    let mut dead_shot = Shot::new(Vec2 { x: 20 * PX, y: 500 * PX });
    dead_shot.is_alive = false;
    w.shots.push(dead_shot);
    let mut off_screen = Shot::new(Vec2 { x: 30 * PX, y: 500 * PX });
    off_screen.pos.y = -1;
    w.shots.push(off_screen);
    w.enemies.push(Enemy::new(String::from("Bloat"), Vec2 { x: 0, y: 100 * PX }, 60, fp));
    let mut dead_enemy = Enemy::new(String::from("NULLs"), Vec2 { x: 0, y: 200 * PX }, 60, fp);
    dead_enemy.is_alive = false;
    w.enemies.push(dead_enemy);

    w.prune();
    let shots_once: Vec<(i64, i64)> = w.shots.iter().map(|s| (s.pos.x, s.pos.y)).collect();
    let enemies_once: Vec<(i64, i64)> = w.enemies.iter().map(|e| (e.pos.x, e.pos.y)).collect();
    assert_eq!(shots_once, vec![(10 * PX, 500 * PX)]);
    assert_eq!(enemies_once, vec![(0, 100 * PX)]);

    w.prune();
    let shots_twice: Vec<(i64, i64)> = w.shots.iter().map(|s| (s.pos.x, s.pos.y)).collect();
    let enemies_twice: Vec<(i64, i64)> = w.enemies.iter().map(|e| (e.pos.x, e.pos.y)).collect();
    assert_eq!(shots_once, shots_twice);
    assert_eq!(enemies_once, enemies_twice);
}

#[test]
fn firing_emits_the_fire_sound_first() {
    let mut w = test_world(false);
    w.player.time_until_next_shot = -1;
    w.time_until_next_enemy = 500;
    let sounds = w.step_with_spawn(firing(), 1, None);
    assert_eq!(sounds[0], Sound::FireShot);
    assert_eq!(w.shots.len(), 1);
    // The shot appears offset from the player and has already moved once.
    assert_eq!(w.shots[0].pos.x, w.player.pos.x - 75 * PX);
    assert!(w.shots[0].pos.y < 1000 * PX - 80 * PX);
}

#[test]
fn shot_leaving_the_top_is_pruned() {
    let mut w = test_world(false);
    let mut shot = Shot::new(Vec2 { x: 10 * PX, y: 0 });
    shot.pos.y = PX;
    w.shots.push(shot);
    w.time_until_next_enemy = 500;
    w.step_with_spawn(idle(), 1, None);
    assert!(w.shots.is_empty());
}

#[test]
fn terminal_state_is_frozen() {
    let mut w = test_world(false);
    w.game_over = true;
    w.killed_by = String::from("Bloat");
    w.shots.push(Shot::new(Vec2 { x: 10 * PX, y: 500 * PX }));
    let sounds = w.update(firing());
    assert!(sounds.is_empty());
    assert_eq!(w.shots.len(), 1);
    assert_eq!(w.shots[0].pos.y, 500 * PX);
    assert_eq!(w.score, 0);
}

#[test]
fn randomized_spawn_stays_within_policy_ranges() {
    let mut w = test_world(false);
    w.time_until_next_enemy = 1;
    let sounds = w.update(idle());
    assert!(sounds.is_empty());
    assert_eq!(w.enemies.len(), 1);
    let e = &w.enemies[0];
    assert!(e.pos.x >= 0 && e.pos.x < 900 * PX);
    // One time unit of falling at a speed from [50, 200) px/s.
    assert!(e.pos.y >= 50 * shooter::PIXEL_PER_SECOND);
    assert!(e.pos.y < 200 * shooter::PIXEL_PER_SECOND);
    assert!(e.velocity.y >= 50 * shooter::PIXEL_PER_SECOND);
    assert!(e.velocity.y < 200 * shooter::PIXEL_PER_SECOND);
    assert!(w.time_until_next_enemy >= 30 && w.time_until_next_enemy < 108);
    let labels = enemy_labels();
    assert!(labels.iter().any(|l| l == e.label()));
}

#[test]
fn spawner_waits_between_enemies() {
    let mut w = test_world(false);
    // The first enemy is due after one second of steps.
    for _ in 0..59 {
        w.update(idle());
        assert!(w.enemies.is_empty());
    }
    w.update(idle());
    assert_eq!(w.enemies.len(), 1);
}

#[test]
fn enemy_labels_are_the_fixed_seven() {
    let labels = enemy_labels();
    assert_eq!(labels.len(), 7);
    assert_eq!(labels[0], "Segfaults");
    assert_eq!(labels[1], "Undefined Behaviour");
    assert_eq!(labels[5], "Unnecessary Heap\nAllocations");
    assert_eq!(labels[6], "Data Races");
}

#[test]
fn default_input_is_idle() {
    let input = InputState::default();
    assert_eq!(input.movement, 0);
    assert!(!input.fire);
}
