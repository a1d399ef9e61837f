//! The mathematical model of a whole simulation state and of one fixed step:
//! spawning, player movement and firing, linear motion, escape detection,
//! collision resolution and pruning, each as a pure function over views.

use vstd::prelude::*;

use crate::entities::{
    Enemy, EnemyV, Footprint, PlayerState, PlayerV, Shot, ShotV, Vec2V, spec_enemy_moved,
    spec_enemy_new, spec_enemy_overlaps, spec_player_moved_x, spec_shot_moved, spec_shot_new,
};
use crate::world::{Sound, SpawnParams};
use crate::{
    COORD_LIMIT, MAX_DIM, MAX_DT, MAX_ENEMY_SPEED, MAX_LABELS, MAX_VEL, PIXEL_PER_SECOND,
    SHOT_OFFSET_X, SHOT_OFFSET_Y, SHOT_SPEED, SHOT_TIMEOUT, SPAWN_MARGIN,
};

verus! {

/// The views of a collection of shots.
pub open spec fn views_of_shots(s: Seq<Shot>) -> Seq<ShotV> {
    s.map_values(|x: Shot| x@)
}

/// The views of a collection of enemies.
pub open spec fn views_of_enemies(s: Seq<Enemy>) -> Seq<EnemyV> {
    s.map_values(|x: Enemy| x@)
}

/// The views of a collection of labels.
pub open spec fn views_of_labels(s: Seq<String>) -> Seq<Seq<char>> {
    s.map_values(|x: String| x@)
}

/// Mathematical model of a whole simulation state.
#[verifier::ext_equal]
pub ghost struct WorldV {
    pub game_over: bool,
    pub killed_by: Seq<char>,
    pub score: int,
    pub player: PlayerV,
    pub shots: Seq<ShotV>,
    pub enemies: Seq<EnemyV>,
    pub enemy_timer: int,
    pub screen_w: int,
    pub screen_h: int,
    pub debug_mode: bool,
    pub labels: Seq<Seq<char>>,
    pub footprints: Seq<Footprint>,
}

/// A footprint fits the accepted range of dimensions.
pub open spec fn footprint_ok(fp: Footprint) -> bool {
    &&& 0 <= fp.width <= MAX_DIM
    &&& 0 <= fp.height <= MAX_DIM
}

/// Well-formedness of a shot within a `screen_w` by `screen_h` play area.
pub open spec fn shot_wf(s: ShotV, screen_w: int, screen_h: int) -> bool {
    &&& s.vx == 0
    &&& s.vy == -SHOT_SPEED * PIXEL_PER_SECOND
    &&& SHOT_OFFSET_X <= s.x <= screen_w
    &&& 0 <= s.y <= screen_h
}

/// Well-formedness of an enemy within a play area `screen_w` wide. Its y is
/// only bounded below: an enemy past the bottom edge coexists only with a
/// terminal state.
pub open spec fn enemy_wf(e: EnemyV, screen_w: int) -> bool {
    &&& e.vx == 0
    &&& 0 < e.vy <= MAX_VEL
    &&& 0 <= e.x <= screen_w
    &&& 0 <= e.y
    &&& 0 <= e.width <= MAX_DIM
    &&& 0 <= e.height <= MAX_DIM
}

impl WorldV {
    /// Well-formedness of a simulation state: established at construction
    /// and preserved by every step.
    pub open spec fn wf(self) -> bool {
        &&& SPAWN_MARGIN < self.screen_w <= MAX_DIM
        &&& 0 < self.screen_h <= MAX_DIM
        &&& 1 <= self.labels.len() <= MAX_LABELS
        &&& self.footprints.len() == self.labels.len()
        &&& (forall|i: int| 0 <= i < self.footprints.len() ==> footprint_ok(#[trigger] self.footprints[i]))
        &&& self.player.y == self.screen_h
        &&& 0 <= self.player.x <= self.screen_w
        &&& self.player.cooldown <= SHOT_TIMEOUT
        &&& 0 < self.enemy_timer <= MAX_DT
        &&& (forall|i: int| 0 <= i < self.shots.len()
            ==> shot_wf(#[trigger] self.shots[i], self.screen_w, self.screen_h))
        &&& (forall|i: int| 0 <= i < self.enemies.len()
            ==> enemy_wf(#[trigger] self.enemies[i], self.screen_w))
        &&& (!self.game_over ==> (forall|i: int| 0 <= i < self.enemies.len()
            ==> (#[trigger] self.enemies[i]).y < self.screen_h))
        &&& (!self.game_over ==> self.killed_by.len() == 0)
    }
}

/// A shot whose coordinates and velocity a linear step cannot take out of
/// the representable range.
pub open spec fn shot_movable(s: ShotV) -> bool {
    &&& -MAX_VEL <= s.vx <= MAX_VEL
    &&& -MAX_VEL <= s.vy <= MAX_VEL
    &&& -COORD_LIMIT <= s.x <= COORD_LIMIT
    &&& -COORD_LIMIT <= s.y <= COORD_LIMIT
}

/// An enemy whose coordinates and velocity a linear step cannot take out of
/// the representable range.
pub open spec fn enemy_movable(e: EnemyV) -> bool {
    &&& -MAX_VEL <= e.vx <= MAX_VEL
    &&& -MAX_VEL <= e.vy <= MAX_VEL
    &&& -COORD_LIMIT <= e.x <= COORD_LIMIT
    &&& -COORD_LIMIT <= e.y <= COORD_LIMIT
}

/// What a shot keeps through motion and collision, before pruning restores
/// the lower bound on y: the fixed upward velocity and the horizontal range.
pub open spec fn shot_carried(s: ShotV, screen_w: int, screen_h: int) -> bool {
    &&& s.vx == 0
    &&& s.vy == -SHOT_SPEED * PIXEL_PER_SECOND
    &&& SHOT_OFFSET_X <= s.x <= screen_w
    &&& s.y <= screen_h
}

/// An enemy whose bounding rectangle can be tested without overflow.
pub open spec fn enemy_boundable(e: EnemyV) -> bool {
    &&& -COORD_LIMIT <= e.x <= COORD_LIMIT
    &&& -COORD_LIMIT <= e.y <= COORD_LIMIT
    &&& 0 <= e.width <= MAX_DIM
    &&& 0 <= e.height <= MAX_DIM
}

/// Removing an element and inserting another at the same index is an update.
pub(crate) proof fn lemma_remove_insert<A>(s: Seq<A>, i: int, v: A)
    requires
        0 <= i < s.len(),
    ensures
        s.remove(i).insert(i, v) == s.update(i, v),
{
    assert(s.remove(i).insert(i, v) =~= s.update(i, v));
}

/// `a - b`, floored at the smallest representable value.
pub open spec fn spec_floor_sub(a: int, b: int) -> int {
    if a - b >= i64::MIN {
        a - b
    } else {
        i64::MIN as int
    }
}

/// The enemy that the spawn command `sp` creates: at `(sp.x, 0)`, falling at
/// `sp.speed` pixels per second, labeled and sized by entry `sp.label_index`
/// of the world's tables.
pub open spec fn spec_spawned_enemy(w: WorldV, sp: SpawnParams) -> EnemyV {
    spec_enemy_new(
        w.labels[sp.label_index as int],
        Vec2V { x: sp.x as int, y: 0 },
        sp.speed as int,
        w.footprints[sp.label_index as int].width as int,
        w.footprints[sp.label_index as int].height as int,
    )
}

/// A spawn command that keeps the world well formed.
pub open spec fn spec_spawn_ok(w: WorldV, sp: SpawnParams) -> bool {
    &&& 0 <= sp.x <= w.screen_w
    &&& (sp.label_index as int) < w.labels.len()
    &&& 0 < sp.speed <= MAX_ENEMY_SPEED
    &&& 0 < sp.next_delay <= MAX_DT
}

/// A spawn command drawn by the randomized policy: x uniform over the
/// margin-narrowed width, a label index over the table, a speed and the next
/// inter-arrival delay each over their fixed ranges.
pub open spec fn spec_spawn_within_policy(w: WorldV, sp: SpawnParams) -> bool {
    &&& 0 <= sp.x < w.screen_w - SPAWN_MARGIN
    &&& (sp.label_index as int) < w.labels.len()
    &&& crate::ENEMY_SPEED_MIN <= sp.speed < crate::ENEMY_SPEED_MAX
    &&& crate::SPAWN_DELAY_MIN <= sp.next_delay < crate::SPAWN_DELAY_MAX
}

/// The spawner advanced by `dt`: the timer runs down, and when it runs out
/// the commanded enemy is appended and the timer reset to the commanded
/// delay.
pub open spec fn spec_spawn_step(w: WorldV, dt: int, spawn: Option<SpawnParams>) -> WorldV {
    let run_down = w.enemy_timer - dt;
    if run_down <= 0 {
        match spawn {
            Some(sp) => WorldV {
                enemies: w.enemies.push(spec_spawned_enemy(w, sp)),
                enemy_timer: sp.next_delay as int,
                ..w
            },
            None => WorldV { enemy_timer: run_down, ..w },
        }
    } else {
        WorldV { enemy_timer: run_down, ..w }
    }
}

/// `e` with its liveness cleared.
pub open spec fn spec_dead_enemy(e: EnemyV) -> EnemyV {
    EnemyV { alive: false, ..e }
}

/// `s` with its liveness cleared.
pub open spec fn spec_dead_shot(s: ShotV) -> ShotV {
    ShotV { alive: false, ..s }
}

/// Outcome of the escape scan.
#[verifier::ext_equal]
pub ghost struct EscapeOut {
    pub enemies: Seq<EnemyV>,
    pub game_over: bool,
    pub killed_by: Seq<char>,
    pub escapes: nat,
}

/// The escape scan from index `i` on: every enemy at or past the bottom edge
/// either ends the game and records its label (normal mode) or is merely
/// marked dead (debug mode). `escapes` counts the game-ending events.
pub open spec fn spec_escapes_from(
    enemies: Seq<EnemyV>,
    i: int,
    screen_h: int,
    debug_mode: bool,
    game_over: bool,
    killed_by: Seq<char>,
) -> EscapeOut
    decreases enemies.len() - i,
{
    if i < 0 || i >= enemies.len() {
        EscapeOut { enemies, game_over, killed_by, escapes: 0 }
    } else {
        let e = enemies[i];
        if e.y >= screen_h {
            if debug_mode {
                spec_escapes_from(
                    enemies.update(i, spec_dead_enemy(e)),
                    i + 1,
                    screen_h,
                    debug_mode,
                    game_over,
                    killed_by,
                )
            } else {
                let rest = spec_escapes_from(enemies, i + 1, screen_h, debug_mode, true, e.label);
                EscapeOut { escapes: rest.escapes + 1, ..rest }
            }
        } else {
            spec_escapes_from(enemies, i + 1, screen_h, debug_mode, game_over, killed_by)
        }
    }
}

/// A live shot whose position lies within `e`'s bounding rectangle.
pub open spec fn spec_live_hit(e: EnemyV, s: ShotV) -> bool {
    s.alive && spec_enemy_overlaps(e, s.x, s.y)
}

/// The index of the first live shot at or after `j` that overlaps `e`.
pub open spec fn spec_first_hit(e: EnemyV, shots: Seq<ShotV>, j: int) -> Option<int>
    decreases shots.len() - j,
{
    if j < 0 || j >= shots.len() {
        None
    } else if spec_live_hit(e, shots[j]) {
        Some(j)
    } else {
        spec_first_hit(e, shots, j + 1)
    }
}

/// Outcome of the collision scan.
#[verifier::ext_equal]
pub ghost struct CollideOut {
    pub enemies: Seq<EnemyV>,
    pub shots: Seq<ShotV>,
    pub hits: nat,
}

/// The collision scan from enemy index `i` on: each live enemy falls to the
/// first live shot inside its bounding rectangle, both die, and one hit is
/// scored for the pair.
pub open spec fn spec_collide_from(enemies: Seq<EnemyV>, shots: Seq<ShotV>, i: int) -> CollideOut
    decreases enemies.len() - i,
{
    if i < 0 || i >= enemies.len() {
        CollideOut { enemies, shots, hits: 0 }
    } else {
        let e = enemies[i];
        if e.alive {
            match spec_first_hit(e, shots, 0) {
                Some(j) => {
                    let rest = spec_collide_from(
                        enemies.update(i, spec_dead_enemy(e)),
                        shots.update(j, spec_dead_shot(shots[j])),
                        i + 1,
                    );
                    CollideOut { hits: rest.hits + 1, ..rest }
                },
                None => spec_collide_from(enemies, shots, i + 1),
            }
        } else {
            spec_collide_from(enemies, shots, i + 1)
        }
    }
}

/// A shot survives pruning while it is alive and still inside the play area.
pub open spec fn spec_shot_kept(s: ShotV) -> bool {
    s.alive && s.y >= 0
}

/// An enemy survives pruning while it is alive.
pub open spec fn spec_enemy_kept(e: EnemyV) -> bool {
    e.alive
}

/// The world with dead shots, off-screen shots and dead enemies removed.
pub open spec fn spec_pruned(w: WorldV) -> WorldV {
    WorldV {
        shots: w.shots.filter(|s: ShotV| spec_shot_kept(s)),
        enemies: w.enemies.filter(|e: EnemyV| spec_enemy_kept(e)),
        ..w
    }
}

/// Outcome of one fixed step: the next state and the sounds it requests, in
/// order of occurrence.
#[verifier::ext_equal]
pub ghost struct StepOut {
    pub world: WorldV,
    pub sounds: Seq<Sound>,
}

/// One fixed step of `dt` time units under the input `(movement, fire)` and
/// the spawn command `spawn`. A terminal state is left untouched; otherwise
/// the phases run in their fixed order: spawn, player movement and firing,
/// linear motion of shots and enemies, escape detection, collision
/// resolution, pruning.
pub open spec fn spec_step(
    w: WorldV,
    movement: int,
    fire: bool,
    dt: int,
    spawn: Option<SpawnParams>,
) -> StepOut {
    if w.game_over {
        StepOut { world: w, sounds: Seq::empty() }
    } else {
        let w1 = spec_spawn_step(w, dt, spawn);
        let moved_x = spec_player_moved_x(w1.player.x, movement, dt, w1.screen_w);
        let cooled = spec_floor_sub(w1.player.cooldown, dt);
        let fired = fire && cooled < 0;
        let player2 = if fired {
            PlayerV {
                state: PlayerState::Shooting,
                x: moved_x,
                y: w1.player.y,
                cooldown: SHOT_TIMEOUT as int,
            }
        } else {
            PlayerV {
                state: if fire {
                    w1.player.state
                } else {
                    PlayerState::Normal
                },
                x: moved_x,
                y: w1.player.y,
                cooldown: cooled,
            }
        };
        let shots2 = if fired {
            w1.shots.push(
                spec_shot_new(Vec2V { x: moved_x + SHOT_OFFSET_X, y: w1.player.y + SHOT_OFFSET_Y }),
            )
        } else {
            w1.shots
        };
        let shots3 = shots2.map_values(|s: ShotV| spec_shot_moved(s, dt));
        let enemies3 = w1.enemies.map_values(|e: EnemyV| spec_enemy_moved(e, dt));
        let esc = spec_escapes_from(
            enemies3,
            0,
            w1.screen_h,
            w1.debug_mode,
            w1.game_over,
            w1.killed_by,
        );
        let col = spec_collide_from(esc.enemies, shots3, 0);
        let world = WorldV {
            game_over: esc.game_over,
            killed_by: esc.killed_by,
            score: w1.score + col.hits,
            player: player2,
            shots: col.shots.filter(|s: ShotV| spec_shot_kept(s)),
            enemies: col.enemies.filter(|e: EnemyV| spec_enemy_kept(e)),
            enemy_timer: w1.enemy_timer,
            screen_w: w1.screen_w,
            screen_h: w1.screen_h,
            debug_mode: w1.debug_mode,
            labels: w1.labels,
            footprints: w1.footprints,
        };
        let sounds = (if fired {
            seq![Sound::FireShot]
        } else {
            Seq::<Sound>::empty()
        }) + Seq::new(esc.escapes, |k: int| Sound::EnemyEscaped)
            + Seq::new(col.hits, |k: int| Sound::EnemyHit);
        StepOut { world, sounds }
    }
}

/// What the escape scan does and does not touch: lengths and the prefix are
/// kept, enemies change at most their liveness, a set terminal flag stays,
/// and while the game is not over every surviving enemy is above the bottom
/// edge and the recorded cause is untouched.
pub(crate) proof fn lemma_escapes_props(
    enemies: Seq<EnemyV>,
    i: int,
    screen_h: int,
    debug_mode: bool,
    game_over: bool,
    killed_by: Seq<char>,
)
    requires
        0 <= i <= enemies.len(),
    ensures
        ({
            let out = spec_escapes_from(enemies, i, screen_h, debug_mode, game_over, killed_by);
            &&& out.enemies.len() == enemies.len()
            &&& (forall|k: int| 0 <= k < i ==> (#[trigger] out.enemies[k]) == enemies[k])
            &&& (forall|k: int| i <= k < enemies.len()
                ==> (#[trigger] out.enemies[k]) == enemies[k]
                    || out.enemies[k] == spec_dead_enemy(enemies[k]))
            &&& (game_over ==> out.game_over)
            &&& (!out.game_over ==> !game_over && out.killed_by == killed_by)
            &&& (!out.game_over ==> (forall|k: int| i <= k < enemies.len()
                ==> ((#[trigger] out.enemies[k]).alive ==> out.enemies[k].y < screen_h)))
            &&& (debug_mode ==> out.game_over == game_over && out.killed_by == killed_by
                && out.escapes == 0)
            &&& (!debug_mode ==> out.enemies == enemies)
        }),
    decreases enemies.len() - i,
{
    if i < enemies.len() {
        let e = enemies[i];
        if e.y >= screen_h {
            if debug_mode {
                let marked = enemies.update(i, spec_dead_enemy(e));
                lemma_escapes_props(marked, i + 1, screen_h, debug_mode, game_over, killed_by);
                let out = spec_escapes_from(enemies, i, screen_h, debug_mode, game_over, killed_by);
                assert(out == spec_escapes_from(
                    marked,
                    i + 1,
                    screen_h,
                    debug_mode,
                    game_over,
                    killed_by,
                ));
                assert(marked[i] == spec_dead_enemy(enemies[i]));
                assert(forall|k: int| 0 <= k < enemies.len() && k != i
                    ==> #[trigger] marked[k] == enemies[k]);
                assert(out.enemies[i] == spec_dead_enemy(enemies[i]));
            } else {
                lemma_escapes_props(enemies, i + 1, screen_h, debug_mode, true, e.label);
            }
        } else {
            lemma_escapes_props(enemies, i + 1, screen_h, debug_mode, game_over, killed_by);
        }
    }
}

/// Where the first hit lands: the returned index is the least one at or
/// after `j` whose shot is live and overlaps `e`, and `None` means there is
/// no such index.
pub(crate) proof fn lemma_first_hit_props(e: EnemyV, shots: Seq<ShotV>, j: int)
    requires
        0 <= j <= shots.len(),
    ensures
        match spec_first_hit(e, shots, j) {
            Some(k) => j <= k < shots.len() && spec_live_hit(e, shots[k]) && (forall|m: int|
                j <= m < k ==> !spec_live_hit(e, #[trigger] shots[m])),
            None => forall|m: int| j <= m < shots.len() ==> !spec_live_hit(e, #[trigger] shots[m]),
        },
    decreases shots.len() - j,
{
    if j < shots.len() && !spec_live_hit(e, shots[j]) {
        lemma_first_hit_props(e, shots, j + 1);
    }
}

/// What the collision scan does and does not touch: lengths are kept, both
/// collections change at most their liveness, and at most one hit is scored
/// per enemy from `i` on.
pub(crate) proof fn lemma_collide_props(enemies: Seq<EnemyV>, shots: Seq<ShotV>, i: int)
    requires
        0 <= i <= enemies.len(),
    ensures
        ({
            let out = spec_collide_from(enemies, shots, i);
            &&& out.enemies.len() == enemies.len()
            &&& out.shots.len() == shots.len()
            &&& out.hits <= enemies.len() - i
            &&& (forall|k: int| 0 <= k < enemies.len()
                ==> (#[trigger] out.enemies[k]) == enemies[k]
                    || out.enemies[k] == spec_dead_enemy(enemies[k]))
            &&& (forall|k: int| 0 <= k < shots.len()
                ==> (#[trigger] out.shots[k]) == shots[k]
                    || out.shots[k] == spec_dead_shot(shots[k]))
        }),
    decreases enemies.len() - i,
{
    if i < enemies.len() {
        let e = enemies[i];
        if e.alive {
            match spec_first_hit(e, shots, 0) {
                Some(j) => {
                    lemma_first_hit_props(e, shots, 0);
                    lemma_collide_props(
                        enemies.update(i, spec_dead_enemy(e)),
                        shots.update(j, spec_dead_shot(shots[j])),
                        i + 1,
                    );
                },
                None => {
                    lemma_collide_props(enemies, shots, i + 1);
                },
            }
        } else {
            lemma_collide_props(enemies, shots, i + 1);
        }
    }
}

/// With no live overlapping pair from enemy index `i` on, the collision scan
/// changes nothing and scores nothing.
pub(crate) proof fn lemma_collide_no_pairs(enemies: Seq<EnemyV>, shots: Seq<ShotV>, i: int)
    requires
        0 <= i <= enemies.len(),
        forall|a: int, b: int|
            #![trigger enemies[a], shots[b]]
            i <= a < enemies.len() && 0 <= b < shots.len()
                ==> !(enemies[a].alive && spec_live_hit(enemies[a], shots[b])),
    ensures
        spec_collide_from(enemies, shots, i) == (CollideOut { enemies, shots, hits: 0 }),
    decreases enemies.len() - i,
{
    if i < enemies.len() {
        let e = enemies[i];
        if e.alive {
            lemma_first_hit_props(e, shots, 0);
            if let Some(k) = spec_first_hit(e, shots, 0) {
                assert(!(enemies[i].alive && spec_live_hit(enemies[i], shots[k])));
                assert(false);
            }
        }
        lemma_collide_no_pairs(enemies, shots, i + 1);
    }
}

/// Helper induction for [`lemma_collision_pair`]: from any start index at or
/// below the pair's enemy, the scan resolves exactly that pair.
proof fn lemma_collide_single_pair_from(
    enemies: Seq<EnemyV>,
    shots: Seq<ShotV>,
    i: int,
    j: int,
    k: int,
)
    requires
        0 <= k <= i < enemies.len(),
        0 <= j < shots.len(),
        enemies[i].alive,
        spec_live_hit(enemies[i], shots[j]),
        forall|a: int, b: int|
            #![trigger enemies[a], shots[b]]
            0 <= a < enemies.len() && 0 <= b < shots.len() && (a != i || b != j)
                ==> !(enemies[a].alive && spec_live_hit(enemies[a], shots[b])),
    ensures
        spec_collide_from(enemies, shots, k) == (CollideOut {
            enemies: enemies.update(i, spec_dead_enemy(enemies[i])),
            shots: shots.update(j, spec_dead_shot(shots[j])),
            hits: 1,
        }),
    decreases i - k,
{
    if k == i {
        let e = enemies[i];
        lemma_first_hit_props(e, shots, 0);
        match spec_first_hit(e, shots, 0) {
            Some(m) => {
                if m != j {
                    assert(!(enemies[i].alive && spec_live_hit(enemies[i], shots[m])));
                    assert(false);
                }
                let enemies2 = enemies.update(i, spec_dead_enemy(e));
                let shots2 = shots.update(j, spec_dead_shot(shots[j]));
                assert forall|a: int, b: int|
                    #![trigger enemies2[a], shots2[b]]
                    i + 1 <= a < enemies2.len() && 0 <= b < shots2.len() implies !(enemies2[a].alive
                    && spec_live_hit(enemies2[a], shots2[b])) by {
                    assert(enemies2[a] == enemies[a]);
                    if b == j {
                        assert(!shots2[b].alive);
                    } else {
                        assert(shots2[b] == shots[b]);
                        assert(!(enemies[a].alive && spec_live_hit(enemies[a], shots[b])));
                    }
                }
                lemma_collide_no_pairs(enemies2, shots2, i + 1);
            },
            None => {
                assert(spec_live_hit(e, shots[j]));
                assert(false);
            },
        }
    } else {
        let e = enemies[k];
        if e.alive {
            lemma_first_hit_props(e, shots, 0);
            if let Some(m) = spec_first_hit(e, shots, 0) {
                assert(!(enemies[k].alive && spec_live_hit(enemies[k], shots[m])));
                assert(false);
            }
        }
        lemma_collide_single_pair_from(enemies, shots, i, j, k + 1);
    }
}

/// Collision symmetry for a lone overlapping pair: when the live shot at
/// index `j` lies within the bounding rectangle of the live enemy at index
/// `i`, and no other live pair overlaps, one collision pass kills exactly
/// those two and scores exactly one hit — wherever the two stand in their
/// collections.
pub proof fn lemma_collision_pair(enemies: Seq<EnemyV>, shots: Seq<ShotV>, i: int, j: int)
    requires
        0 <= i < enemies.len(),
        0 <= j < shots.len(),
        enemies[i].alive,
        spec_live_hit(enemies[i], shots[j]),
        forall|a: int, b: int|
            #![trigger enemies[a], shots[b]]
            0 <= a < enemies.len() && 0 <= b < shots.len() && (a != i || b != j)
                ==> !(enemies[a].alive && spec_live_hit(enemies[a], shots[b])),
    ensures
        spec_collide_from(enemies, shots, 0) == (CollideOut {
            enemies: enemies.update(i, spec_dead_enemy(enemies[i])),
            shots: shots.update(j, spec_dead_shot(shots[j])),
            hits: 1,
        }),
{
    lemma_collide_single_pair_from(enemies, shots, i, j, 0);
}

/// Pushing onto a sequence extends its filtering by the new element exactly
/// when the element passes.
pub(crate) proof fn lemma_filter_push<A>(s: Seq<A>, x: A, p: spec_fn(A) -> bool)
    ensures
        s.push(x).filter(p) == if p(x) {
            s.filter(p).push(x)
        } else {
            s.filter(p)
        },
{
    reveal(Seq::filter);
    assert(s.push(x).drop_last() =~= s);
    assert(s.push(x).last() == x);
}

/// Filtering keeps a sequence in which every element already passes.
pub(crate) proof fn lemma_filter_all<A>(s: Seq<A>, p: spec_fn(A) -> bool)
    requires
        forall|i: int| 0 <= i < s.len() ==> p(#[trigger] s[i]),
    ensures
        s.filter(p) == s,
    decreases s.len(),
{
    reveal(Seq::filter);
    if s.len() > 0 {
        assert(forall|i: int| 0 <= i < s.drop_last().len() ==> p(#[trigger] s.drop_last()[i]));
        lemma_filter_all(s.drop_last(), p);
        assert(p(s.last()));
        assert(s.filter(p) =~= s);
    } else {
        assert(s.filter(p) =~= s);
    }
}

/// Every element of a filtering satisfies any property that every element of
/// the unfiltered sequence satisfies.
pub(crate) proof fn lemma_filter_keeps<A>(s: Seq<A>, p: spec_fn(A) -> bool, q: spec_fn(A) -> bool)
    requires
        forall|i: int| 0 <= i < s.len() ==> q(#[trigger] s[i]),
    ensures
        forall|i: int| 0 <= i < s.filter(p).len() ==> q(#[trigger] s.filter(p)[i]),
    decreases s.len(),
{
    reveal(Seq::filter);
    if s.len() > 0 {
        assert(forall|i: int| 0 <= i < s.drop_last().len() ==> q(#[trigger] s.drop_last()[i]));
        lemma_filter_keeps(s.drop_last(), p, q);
        if p(s.last()) {
            assert(s.filter(p) == s.drop_last().filter(p).push(s.last()));
            assert(forall|i: int| 0 <= i < s.filter(p).len() - 1
                ==> s.filter(p)[i] == #[trigger] s.drop_last().filter(p)[i]);
            assert(q(s.filter(p).last()));
        } else {
            assert(s.filter(p) == s.drop_last().filter(p));
        }
    }
}

/// Filtering twice with the same predicate filters once.
pub(crate) proof fn lemma_filter_idempotent<A>(s: Seq<A>, p: spec_fn(A) -> bool)
    ensures
        s.filter(p).filter(p) == s.filter(p),
{
    assert forall|i: int| 0 <= i < s.filter(p).len() implies p(#[trigger] s.filter(p)[i]) by {
        s.lemma_filter_pred(p, i);
    }
    lemma_filter_all(s.filter(p), p);
}

/// A terminal state is frozen: once the game is over, a step mutates nothing
/// — not the score, not the cause of death, not an entity — and requests no
/// sound, whatever the input, the time step and the spawn command.
pub proof fn lemma_terminal_state_is_frozen(
    w: WorldV,
    movement: int,
    fire: bool,
    dt: int,
    spawn: Option<SpawnParams>,
)
    requires
        w.game_over,
    ensures
        spec_step(w, movement, fire, dt, spawn).world == w,
        spec_step(w, movement, fire, dt, spawn).sounds == Seq::<Sound>::empty(),
{
}

/// Pruning is idempotent: pruning twice in succession, with no step in
/// between, yields the same live set as pruning once.
pub proof fn lemma_prune_idempotent(w: WorldV)
    ensures
        spec_pruned(spec_pruned(w)) == spec_pruned(w),
{
    lemma_filter_idempotent(w.shots, |s: ShotV| spec_shot_kept(s));
    lemma_filter_idempotent(w.enemies, |e: EnemyV| spec_enemy_kept(e));
    assert(spec_pruned(spec_pruned(w)) =~= spec_pruned(w));
}

} // verus!
