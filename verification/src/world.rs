//! The simulation state and its fixed-timestep update.

use vstd::prelude::*;

use crate::entities::{Enemy, EnemyV, Footprint, Player, PlayerState, PlayerV, Shot, ShotV, Vec2,
    spec_enemy_moved, spec_shot_moved, spec_shot_new};
use crate::model::{
    CollideOut, EscapeOut, WorldV, enemy_boundable, enemy_movable, enemy_wf,
    footprint_ok, lemma_collide_props, lemma_escapes_props, lemma_filter_push,
    lemma_filter_keeps, lemma_first_hit_props, lemma_remove_insert, shot_carried, shot_movable,
    shot_wf, spec_collide_from, spec_dead_enemy, spec_dead_shot, spec_enemy_kept,
    spec_escapes_from, spec_first_hit, spec_floor_sub, spec_live_hit, spec_pruned,
    spec_shot_kept, spec_spawn_ok, spec_spawn_step, spec_spawned_enemy, spec_step,
    views_of_enemies, views_of_labels, views_of_shots,
};
use crate::{FIRST_SPAWN_DELAY, MAX_DIM, MAX_DT, MAX_INTENT, MAX_LABELS, MAX_VEL, SHOT_OFFSET_X,
    SHOT_OFFSET_Y, SHOT_TIMEOUT, SPAWN_MARGIN};

verus! {

/// The per-frame input signal sampled by the host before a batch of steps.
#[derive(Clone, Copy, Debug, PartialEq, Eq)]
pub struct InputState {
    /// Horizontal movement intent in thousandths; negative is left.
    pub movement: i64,
    /// Whether the fire button is held.
    pub fire: bool,
}

impl Default for InputState {
    /// No movement, fire released.
    fn default() -> (r: InputState)
        ensures
            r.movement == 0,
            !r.fire,
    {
        InputState { movement: 0, fire: false }
    }
}

/// A sound effect the simulation asks the host to play.
#[derive(Clone, Copy, Debug, PartialEq, Eq)]
pub enum Sound {
    FireShot,
    EnemyHit,
    EnemyEscaped,
}

/// One spawn command: where the next enemy appears, which label it carries,
/// how fast it falls, and the delay until the spawner acts again.
#[derive(Clone, Copy, Debug, PartialEq, Eq)]
pub struct SpawnParams {
    /// Spawn x in position units.
    pub x: i64,
    /// Index into the label and footprint tables.
    pub label_index: usize,
    /// Downward speed in pixels per second.
    pub speed: i64,
    /// Time units until the spawner acts again.
    pub next_delay: i64,
}

/// A configuration the simulation cannot be built on.
#[derive(Clone, Copy, Debug, PartialEq, Eq)]
pub enum ConfigError {
    /// A screen dimension is out of range, or the width leaves no room for
    /// the spawn margin.
    BadDimensions,
    /// The label table is empty.
    NoLabels,
    /// The label table is longer than the accepted maximum.
    TooManyLabels,
    /// The footprint table does not pair up with the label table.
    MissingFootprint,
    /// A footprint has a side that is negative or out of range.
    BadFootprint,
}

/// A whole simulation: the player, the live shots and enemies, the spawner's
/// timer, the scoreboard and the fixed configuration.
#[derive(Debug)]
pub struct World {
    /// Terminal flag: set once an enemy escapes, never cleared.
    pub game_over: bool,
    /// Label of the enemy that ended the game; empty while playing.
    pub killed_by: String,
    pub score: u32,
    pub player: Player,
    pub shots: Vec<Shot>,
    pub enemies: Vec<Enemy>,
    /// Time units until the spawner acts.
    pub time_until_next_enemy: i64,
    /// Play-area width in position units.
    pub screen_width: i64,
    /// Play-area height in position units.
    pub screen_height: i64,
    /// In debug mode an escaping enemy is discarded instead of ending the
    /// game.
    pub debug_mode: bool,
    /// The fixed list of enemy labels.
    pub labels: Vec<String>,
    /// Collision footprint of each label, in table order.
    pub footprints: Vec<Footprint>,
}

impl View for World {
    type V = WorldV;

    open spec fn view(&self) -> WorldV {
        WorldV {
            game_over: self.game_over,
            killed_by: self.killed_by@,
            score: self.score as int,
            player: self.player@,
            shots: views_of_shots(self.shots@),
            enemies: views_of_enemies(self.enemies@),
            enemy_timer: self.time_until_next_enemy as int,
            screen_w: self.screen_width as int,
            screen_h: self.screen_height as int,
            debug_mode: self.debug_mode,
            labels: views_of_labels(self.labels@),
            footprints: self.footprints@,
        }
    }
}

/// The screen dimensions the simulation accepts: both sides in range and
/// room for the spawn margin.
pub open spec fn spec_dims_ok(screen_w: int, screen_h: int) -> bool {
    &&& SPAWN_MARGIN < screen_w <= MAX_DIM
    &&& 0 < screen_h <= MAX_DIM
}

/// The initial state: nothing spawned or fired, score zero, the player at
/// the bottom middle with a full cooldown pending, and the first enemy due
/// in one second.
pub open spec fn spec_initial_world(
    screen_w: int,
    screen_h: int,
    debug_mode: bool,
    labels: Seq<Seq<char>>,
    footprints: Seq<Footprint>,
) -> WorldV {
    WorldV {
        game_over: false,
        killed_by: Seq::empty(),
        score: 0,
        player: PlayerV {
            state: PlayerState::Normal,
            x: screen_w / 2,
            y: screen_h,
            cooldown: SHOT_TIMEOUT as int,
        },
        shots: Seq::empty(),
        enemies: Seq::empty(),
        enemy_timer: FIRST_SPAWN_DELAY as int,
        screen_w,
        screen_h,
        debug_mode,
        labels,
        footprints,
    }
}

impl World {
    /// Builds the initial simulation state, validating the configuration:
    /// the screen dimensions, the label table and the footprint table
    /// supplied by the host's sizing capability. An enemy without a valid
    /// footprint could never collide, so a bad table is a fatal
    /// configuration error.
    pub fn new(
        screen_width: i64,
        screen_height: i64,
        debug_mode: bool,
        labels: Vec<String>,
        footprints: Vec<Footprint>,
    ) -> (r: Result<World, ConfigError>)
        ensures
            match r {
                Ok(w) => {
                    &&& spec_dims_ok(screen_width as int, screen_height as int)
                    &&& 1 <= labels@.len() <= MAX_LABELS
                    &&& footprints@.len() == labels@.len()
                    &&& (forall|i: int| 0 <= i < footprints@.len()
                        ==> footprint_ok(#[trigger] footprints@[i]))
                    &&& w@ == spec_initial_world(
                        screen_width as int,
                        screen_height as int,
                        debug_mode,
                        views_of_labels(labels@),
                        footprints@,
                    )
                    &&& w@.wf()
                },
                Err(e) => match e {
                    ConfigError::BadDimensions => !spec_dims_ok(
                        screen_width as int,
                        screen_height as int,
                    ),
                    ConfigError::NoLabels => spec_dims_ok(screen_width as int, screen_height as int)
                        && labels@.len() == 0,
                    ConfigError::TooManyLabels => spec_dims_ok(
                        screen_width as int,
                        screen_height as int,
                    ) && labels@.len() > MAX_LABELS,
                    ConfigError::MissingFootprint => spec_dims_ok(
                        screen_width as int,
                        screen_height as int,
                    ) && 1 <= labels@.len() <= MAX_LABELS && footprints@.len() != labels@.len(),
                    ConfigError::BadFootprint => spec_dims_ok(
                        screen_width as int,
                        screen_height as int,
                    ) && 1 <= labels@.len() <= MAX_LABELS && footprints@.len() == labels@.len()
                        && !(forall|i: int| 0 <= i < footprints@.len()
                            ==> footprint_ok(#[trigger] footprints@[i])),
                },
            },
    {
        if !(SPAWN_MARGIN < screen_width && screen_width <= MAX_DIM && 0 < screen_height
            && screen_height <= MAX_DIM) {
            return Err(ConfigError::BadDimensions);
        }
        if labels.len() == 0 {
            return Err(ConfigError::NoLabels);
        }
        if labels.len() > MAX_LABELS {
            return Err(ConfigError::TooManyLabels);
        }
        if footprints.len() != labels.len() {
            return Err(ConfigError::MissingFootprint);
        }
        let mut i: usize = 0;
        while i < footprints.len()
            invariant
                0 <= i <= footprints@.len(),
                spec_dims_ok(screen_width as int, screen_height as int),
                1 <= labels@.len() <= MAX_LABELS,
                footprints@.len() == labels@.len(),
                forall|k: int| 0 <= k < i ==> footprint_ok(#[trigger] footprints@[k]),
            decreases footprints@.len() - i,
        {
            let fp = footprints[i];
            if !(0 <= fp.width && fp.width <= MAX_DIM && 0 <= fp.height && fp.height <= MAX_DIM) {
                proof {
                    assert(0 <= (i as int) && (i as int) < footprints@.len());
                    assert(!footprint_ok(footprints@[i as int]));
                    assert(!(forall|k: int| 0 <= k < footprints@.len()
                        ==> footprint_ok(#[trigger] footprints@[k])));
                }
                return Err(ConfigError::BadFootprint);
            }
            i = i + 1;
        }
        let half_width: i64 = ((screen_width as u64) / 2) as i64;
        let player = Player::new(Vec2 { x: half_width, y: screen_height });
        let w = World {
            game_over: false,
            killed_by: String::new(),
            score: 0,
            player,
            shots: Vec::new(),
            enemies: Vec::new(),
            time_until_next_enemy: FIRST_SPAWN_DELAY,
            screen_width,
            screen_height,
            debug_mode,
            labels,
            footprints,
        };
        proof {
            assert(half_width as int == screen_width as int / 2);
            assert(w@ =~= spec_initial_world(
                screen_width as int,
                screen_height as int,
                debug_mode,
                views_of_labels(w.labels@),
                w.footprints@,
            ));
        }
        Ok(w)
    }

    /// One fixed step of `dt` time units with an explicit spawn command: the
    /// deterministic heart of the simulation, fully determined by the state,
    /// the input and the command. A terminal state is left untouched.
    /// Otherwise the phases run in order — spawn, player movement and
    /// firing, motion, escape detection, collision, pruning — and the
    /// requested sounds come back in order of occurrence.
    ///
    /// The spawn command must be present exactly when the spawner's timer
    /// runs out during this step, and must be within the accepted ranges;
    /// the randomized policy of [`World::update`] supplies such a command.
    #[verifier::loop_isolation(false)]
    #[verifier::rlimit(100)]
    pub fn step_with_spawn(
        &mut self,
        input: InputState,
        dt: i64,
        spawn: Option<SpawnParams>,
    ) -> (sounds: Vec<Sound>)
        requires
            old(self)@.wf(),
            0 < dt <= MAX_DT,
            -MAX_INTENT <= input.movement <= MAX_INTENT,
            old(self)@.score + old(self)@.enemies.len() + 1 <= u32::MAX,
            !old(self).game_over ==> ((old(self).time_until_next_enemy - dt <= 0) <==> (
            spawn is Some)),
            spawn matches Some(sp) ==> spec_spawn_ok(old(self)@, sp),
        ensures
            final(self)@ == spec_step(
                old(self)@,
                input.movement as int,
                input.fire,
                dt as int,
                spawn,
            ).world,
            sounds@ == spec_step(
                old(self)@,
                input.movement as int,
                input.fire,
                dt as int,
                spawn,
            ).sounds,
            final(self)@.wf(),
    {
        let ghost w0 = old(self)@;
        let ghost mv = input.movement as int;
        let ghost dti = dt as int;
        let ghost sout = spec_step(w0, mv, input.fire, dti, spawn);
        if self.game_over {
            let sounds: Vec<Sound> = Vec::new();
            proof {
                assert(sout.world == w0);
                assert(sounds@ =~= sout.sounds);
            }
            return sounds;
        }
        // Spawn phase.
        let due = self.time_until_next_enemy - dt <= 0;
        if due {
            let sp = spawn.unwrap();
            let label = self.labels[sp.label_index].clone();
            let fp = self.footprints[sp.label_index];
            let enemy = Enemy::new(label, Vec2 { x: sp.x, y: 0 }, sp.speed, fp);
            self.enemies.push(enemy);
            self.time_until_next_enemy = sp.next_delay;
        } else {
            self.time_until_next_enemy = self.time_until_next_enemy - dt;
        }
        let ghost w1 = spec_spawn_step(w0, dti, spawn);
        proof {
            assert(self@ =~= w1);
            assert(w0.enemies.len() <= w1.enemies.len() <= w0.enemies.len() + 1);
            assert forall|k: int| 0 <= k < w1.enemies.len() implies enemy_wf(
                #[trigger] w1.enemies[k],
                w1.screen_w,
            ) && w1.enemies[k].y < w1.screen_h by {
                if k < w0.enemies.len() {
                    assert(w1.enemies[k] == w0.enemies[k]);
                } else {
                    let sp = spawn.unwrap();
                    assert(w1.enemies[k] == spec_spawned_enemy(w0, sp));
                    assert(0 < sp.speed * crate::PIXEL_PER_SECOND <= MAX_VEL) by (nonlinear_arith)
                        requires
                            0 < sp.speed <= crate::MAX_ENEMY_SPEED,
                    ;
                    assert(footprint_ok(w0.footprints[sp.label_index as int]));
                }
            }
        }
        // Player movement and firing phase.
        let max_right = self.screen_width;
        self.player.update(input.movement, dt, max_right);
        if self.player.time_until_next_shot >= i64::MIN + dt {
            self.player.time_until_next_shot = self.player.time_until_next_shot - dt;
        } else {
            self.player.time_until_next_shot = i64::MIN;
        }
        let ghost moved_x = crate::entities::spec_player_moved_x(
            w1.player.x,
            mv,
            dti,
            w1.screen_w,
        );
        let ghost cooled = spec_floor_sub(w1.player.cooldown, dti);
        let mut sounds: Vec<Sound> = Vec::new();
        let fired = input.fire && self.player.time_until_next_shot < 0;
        if fired {
            let shot = Shot::new(
                Vec2 {
                    x: self.player.pos.x + SHOT_OFFSET_X,
                    y: self.player.pos.y + SHOT_OFFSET_Y,
                },
            );
            self.shots.push(shot);
            self.player.time_until_next_shot = SHOT_TIMEOUT;
            self.player.state = PlayerState::Shooting;
            sounds.push(Sound::FireShot);
        } else {
            if !input.fire {
                self.player.state = PlayerState::Normal;
            }
        }
        let ghost player2 = if fired {
            PlayerV {
                state: PlayerState::Shooting,
                x: moved_x,
                y: w1.player.y,
                cooldown: SHOT_TIMEOUT as int,
            }
        } else {
            PlayerV {
                state: if input.fire {
                    w1.player.state
                } else {
                    PlayerState::Normal
                },
                x: moved_x,
                y: w1.player.y,
                cooldown: cooled,
            }
        };
        let ghost shots2 = if fired {
            w1.shots.push(
                spec_shot_new(
                    crate::entities::Vec2V {
                        x: moved_x + SHOT_OFFSET_X,
                        y: w1.player.y + SHOT_OFFSET_Y,
                    },
                ),
            )
        } else {
            w1.shots
        };
        proof {
            assert(fired == (input.fire && cooled < 0));
            assert(self.player@ == player2);
            assert(views_of_shots(self.shots@) =~= shots2);
            assert(self@ =~= (WorldV { player: player2, shots: shots2, ..w1 }));
            assert forall|k: int| 0 <= k < shots2.len() implies shot_carried(
                #[trigger] shots2[k],
                w1.screen_w,
                w1.screen_h,
            ) && -crate::COORD_LIMIT <= shots2[k].y by {
                if k < w1.shots.len() {
                    assert(shots2[k] == w0.shots[k]);
                    assert(shot_wf(w0.shots[k], w0.screen_w, w0.screen_h));
                }
            }
        }
        // Motion phase.
        proof {
            assert forall|k: int| 0 <= k < self.shots@.len() implies shot_movable(
                #[trigger] self.shots@[k]@,
            ) by {
                assert(shot_carried(shots2[k], w1.screen_w, w1.screen_h)
                    && -crate::COORD_LIMIT <= shots2[k].y);
            }
            assert forall|k: int| 0 <= k < self.enemies@.len() implies enemy_movable(
                #[trigger] self.enemies@[k]@,
            ) by {
                assert(enemy_wf(w1.enemies[k], w1.screen_w) && w1.enemies[k].y < w1.screen_h);
            }
        }
        move_all_shots(&mut self.shots, dt);
        move_all_enemies(&mut self.enemies, dt);
        let ghost shots3 = shots2.map_values(|s: ShotV| spec_shot_moved(s, dti));
        let ghost enemies3 = w1.enemies.map_values(|e: EnemyV| spec_enemy_moved(e, dti));
        proof {
            assert(views_of_shots(self.shots@) == shots3);
            assert(views_of_enemies(self.enemies@) == enemies3);
            assert(self@ =~= (WorldV {
                player: player2,
                shots: shots3,
                enemies: enemies3,
                ..w1
            }));
            assert forall|k: int| 0 <= k < shots3.len() implies shot_carried(
                #[trigger] shots3[k],
                w1.screen_w,
                w1.screen_h,
            ) by {
                let s = shots2[k];
                assert(shot_carried(s, w1.screen_w, w1.screen_h));
                assert(s.vy * dti < 0) by (nonlinear_arith)
                    requires
                        s.vy == -crate::SHOT_SPEED * crate::PIXEL_PER_SECOND,
                        0 < dti,
                ;
            }
            assert forall|k: int| 0 <= k < enemies3.len() implies enemy_wf(
                #[trigger] enemies3[k],
                w1.screen_w,
            ) && enemy_boundable(enemies3[k]) by {
                let e = w1.enemies[k];
                assert(enemy_wf(e, w1.screen_w) && e.y < w1.screen_h);
                assert(0 <= e.vy * dti <= 1_000_000_000 * 1_000_000) by (nonlinear_arith)
                    requires
                        0 < e.vy <= MAX_VEL,
                        0 < dti <= MAX_DT,
                ;
            }
        }
        // Escape phase.
        let escapes = self.check_escapes();
        let ghost esc = spec_escapes_from(
            enemies3,
            0,
            w1.screen_h,
            w1.debug_mode,
            w1.game_over,
            w1.killed_by,
        );
        proof {
            lemma_escapes_props(enemies3, 0, w1.screen_h, w1.debug_mode, w1.game_over, w1.killed_by);
            assert(self@ =~= (WorldV {
                player: player2,
                shots: shots3,
                enemies: esc.enemies,
                game_over: esc.game_over,
                killed_by: esc.killed_by,
                ..w1
            }));
            assert(escapes == esc.escapes);
        }
        let ghost sounds_before_escapes = sounds@;
        let mut k: usize = 0;
        while k < escapes
            invariant
                0 <= k <= escapes,
                sounds@ == sounds_before_escapes + Seq::new(k as nat, |m: int| Sound::EnemyEscaped),
            decreases escapes - k,
        {
            sounds.push(Sound::EnemyEscaped);
            k = k + 1;
            proof {
                assert(sounds@ =~= sounds_before_escapes + Seq::new(
                    k as nat,
                    |m: int| Sound::EnemyEscaped,
                ));
            }
        }
        // Collision phase.
        proof {
            assert forall|k2: int| 0 <= k2 < self@.enemies.len() implies enemy_boundable(
                #[trigger] self@.enemies[k2],
            ) by {
                assert(esc.enemies[k2] == enemies3[k2] || esc.enemies[k2] == spec_dead_enemy(
                    enemies3[k2],
                ));
                assert(enemy_boundable(enemies3[k2]));
            }
            assert(self@.score + self@.enemies.len() <= u32::MAX);
        }
        let hits = self.handle_collisions();
        let ghost col = spec_collide_from(esc.enemies, shots3, 0);
        proof {
            lemma_collide_props(esc.enemies, shots3, 0);
            assert(self@ =~= (WorldV {
                player: player2,
                shots: col.shots,
                enemies: col.enemies,
                game_over: esc.game_over,
                killed_by: esc.killed_by,
                score: w1.score + col.hits,
                ..w1
            }));
            assert(hits == col.hits);
        }
        let ghost sounds_before_hits = sounds@;
        let mut m: u32 = 0;
        while m < hits
            invariant
                0 <= m <= hits,
                sounds@ == sounds_before_hits + Seq::new(m as nat, |n: int| Sound::EnemyHit),
            decreases hits - m,
        {
            sounds.push(Sound::EnemyHit);
            m = m + 1;
            proof {
                assert(sounds@ =~= sounds_before_hits + Seq::new(
                    m as nat,
                    |n: int| Sound::EnemyHit,
                ));
            }
        }
        // Pruning phase.
        self.prune();
        proof {
            let shots_final = col.shots.filter(|s: ShotV| spec_shot_kept(s));
            let enemies_final = col.enemies.filter(|e: EnemyV| spec_enemy_kept(e));
            assert(self@ =~= sout.world);
            assert(sounds@ =~= sout.sounds);
            // Well-formedness of the final state.
            lemma_filter_keeps(
                col.shots,
                |s: ShotV| spec_shot_kept(s),
                |s: ShotV| shot_carried(s, w1.screen_w, w1.screen_h),
            );
            assert forall|k2: int| 0 <= k2 < col.shots.len() implies shot_carried(
                #[trigger] col.shots[k2],
                w1.screen_w,
                w1.screen_h,
            ) by {
                assert(col.shots[k2] == shots3[k2] || col.shots[k2] == spec_dead_shot(shots3[k2]));
            }
            assert forall|k2: int| 0 <= k2 < shots_final.len() implies shot_wf(
                #[trigger] shots_final[k2],
                w1.screen_w,
                w1.screen_h,
            ) by {
                col.shots.lemma_filter_pred(|s: ShotV| spec_shot_kept(s), k2);
            }
            lemma_filter_keeps(
                col.enemies,
                |e: EnemyV| spec_enemy_kept(e),
                |e: EnemyV| enemy_wf(e, w1.screen_w),
            );
            assert forall|k2: int| 0 <= k2 < col.enemies.len() implies enemy_wf(
                #[trigger] col.enemies[k2],
                w1.screen_w,
            ) by {
                assert(col.enemies[k2] == esc.enemies[k2] || col.enemies[k2] == spec_dead_enemy(
                    esc.enemies[k2],
                ));
                assert(esc.enemies[k2] == enemies3[k2] || esc.enemies[k2] == spec_dead_enemy(
                    enemies3[k2],
                ));
            }
            if !esc.game_over {
                lemma_filter_keeps(
                    col.enemies,
                    |e: EnemyV| spec_enemy_kept(e),
                    |e: EnemyV| e.alive ==> e.y < w1.screen_h,
                );
                assert forall|k2: int| 0 <= k2 < col.enemies.len() implies ((#[trigger]
                col.enemies[k2]).alive ==> col.enemies[k2].y < w1.screen_h) by {
                    assert(col.enemies[k2] == esc.enemies[k2] || col.enemies[k2]
                        == spec_dead_enemy(esc.enemies[k2]));
                }
                assert forall|k2: int| 0 <= k2 < enemies_final.len() implies (#[trigger]
                enemies_final[k2]).y < w1.screen_h by {
                    col.enemies.lemma_filter_pred(|e: EnemyV| spec_enemy_kept(e), k2);
                }
            }
            assert(sout.world.wf());
        }
        sounds
    }

    /// One fixed step of one time unit, with the randomized spawning policy:
    /// when the spawner's timer runs out, the next enemy's position, label,
    /// speed and the following delay are drawn uniformly from their fixed
    /// ranges. Everything that holds of the step holds for some such
    /// command; nothing more can be promised of a random draw.
    pub fn update(&mut self, input: InputState) -> (sounds: Vec<Sound>)
        requires
            old(self)@.wf(),
            -MAX_INTENT <= input.movement <= MAX_INTENT,
            old(self)@.score + old(self)@.enemies.len() + 1 <= u32::MAX,
        ensures
            final(self)@.wf(),
            exists|sp: Option<SpawnParams>|
                {
                    &&& (!old(self).game_over ==> ((old(self).time_until_next_enemy - 1 <= 0)
                        <==> (sp is Some)))
                    &&& (sp matches Some(p) ==> crate::model::spec_spawn_within_policy(
                        old(self)@,
                        p,
                    ))
                    &&& final(self)@ == (#[trigger] spec_step(
                        old(self)@,
                        input.movement as int,
                        input.fire,
                        1,
                        sp,
                    )).world
                    &&& sounds@ == spec_step(
                        old(self)@,
                        input.movement as int,
                        input.fire,
                        1,
                        sp,
                    ).sounds
                },
    {
        let due = !self.game_over && self.time_until_next_enemy - 1 <= 0;
        let spawn: Option<SpawnParams> = if due {
            let x = crate::rng::rand_in_range(0, self.screen_width - SPAWN_MARGIN);
            let raw_index = crate::rng::rand_in_range(0, self.labels.len() as i64);
            let speed = crate::rng::rand_in_range(crate::ENEMY_SPEED_MIN, crate::ENEMY_SPEED_MAX);
            let delay = crate::rng::rand_in_range(crate::SPAWN_DELAY_MIN, crate::SPAWN_DELAY_MAX);
            Some(
                SpawnParams {
                    x,
                    label_index: raw_index as usize,
                    speed,
                    next_delay: delay,
                },
            )
        } else {
            None
        };
        let sounds = self.step_with_spawn(input, 1, spawn);
        proof {
            assert(!old(self).game_over ==> ((old(self).time_until_next_enemy - 1 <= 0) <==> (
            spawn is Some)));
            assert(spawn matches Some(p) ==> crate::model::spec_spawn_within_policy(
                old(self)@,
                p,
            ));
        }
        sounds
    }

    /// Scans the enemies in order for ones at or past the bottom edge. In
    /// normal mode each such enemy ends the game and records its label as
    /// the cause of death; in debug mode it is merely marked dead. Returns
    /// how many game-ending escapes were seen.
    fn check_escapes(&mut self) -> (escapes: usize)
        ensures
            ({
                let out = spec_escapes_from(
                    views_of_enemies(old(self).enemies@),
                    0,
                    old(self).screen_height as int,
                    old(self).debug_mode,
                    old(self).game_over,
                    old(self).killed_by@,
                );
                &&& final(self)@ == (WorldV {
                    enemies: out.enemies,
                    game_over: out.game_over,
                    killed_by: out.killed_by,
                    ..old(self)@
                })
                &&& escapes == out.escapes
            }),
    {
        let ghost orig = views_of_enemies(self.enemies@);
        let ghost h = self.screen_height as int;
        let ghost total = spec_escapes_from(
            orig,
            0,
            h,
            self.debug_mode,
            self.game_over,
            self.killed_by@,
        );
        let mut escapes: usize = 0;
        let mut i: usize = 0;
        while i < self.enemies.len()
            invariant
                0 <= i <= self.enemies@.len(),
                self.enemies@.len() == orig.len(),
                escapes <= i,
                h == self.screen_height as int,
                self.screen_height == old(self).screen_height,
                self.screen_width == old(self).screen_width,
                self.debug_mode == old(self).debug_mode,
                self.player == old(self).player,
                self.shots@ == old(self).shots@,
                self.score == old(self).score,
                self.time_until_next_enemy == old(self).time_until_next_enemy,
                self.labels@ == old(self).labels@,
                self.footprints@ == old(self).footprints@,
                total == spec_escapes_from(
                    orig,
                    0,
                    h,
                    old(self).debug_mode,
                    old(self).game_over,
                    old(self).killed_by@,
                ),
                ({
                    let rem = spec_escapes_from(
                        views_of_enemies(self.enemies@),
                        i as int,
                        h,
                        self.debug_mode,
                        self.game_over,
                        self.killed_by@,
                    );
                    &&& total.enemies == rem.enemies
                    &&& total.game_over == rem.game_over
                    &&& total.killed_by == rem.killed_by
                    &&& total.escapes == escapes + rem.escapes
                }),
            decreases self.enemies@.len() - i,
        {
            let ghost pre = views_of_enemies(self.enemies@);
            let ghost go_pre = self.game_over;
            let ghost kb_pre = self.killed_by@;
            proof {
                assert(pre[i as int] == self.enemies@[i as int]@);
            }
            let escaped = self.enemies[i].pos.y >= self.screen_height;
            if escaped {
                if self.debug_mode {
                    let ghost before = self.enemies@;
                    let mut e = self.enemies.remove(i);
                    e.is_alive = false;
                    self.enemies.insert(i, e);
                    proof {
                        lemma_remove_insert(before, i as int, e);
                        assert(self.enemies@ == before.update(i as int, e));
                        assert(views_of_enemies(self.enemies@) =~= pre.update(
                            i as int,
                            spec_dead_enemy(pre[i as int]),
                        ));
                        assert(spec_escapes_from(pre, i as int, h, self.debug_mode, go_pre, kb_pre)
                            == spec_escapes_from(
                            views_of_enemies(self.enemies@),
                            (i + 1) as int,
                            h,
                            self.debug_mode,
                            go_pre,
                            kb_pre,
                        ));
                    }
                } else {
                    self.game_over = true;
                    self.killed_by = self.enemies[i].label.clone();
                    escapes = escapes + 1;
                    proof {
                        assert(self.killed_by@ == pre[i as int].label);
                        let rest = spec_escapes_from(
                            pre,
                            (i + 1) as int,
                            h,
                            self.debug_mode,
                            true,
                            pre[i as int].label,
                        );
                        assert(spec_escapes_from(pre, i as int, h, self.debug_mode, go_pre, kb_pre)
                            == (EscapeOut { escapes: rest.escapes + 1, ..rest }));
                    }
                }
            }
            i = i + 1;
        }
        proof {
            assert(spec_escapes_from(
                views_of_enemies(self.enemies@),
                i as int,
                h,
                self.debug_mode,
                self.game_over,
                self.killed_by@,
            ).escapes == 0);
            assert(self@ =~= (WorldV {
                enemies: total.enemies,
                game_over: total.game_over,
                killed_by: total.killed_by,
                ..old(self)@
            }));
        }
        escapes
    }

    /// One collision pass over the (enemy, shot) pairs, in order: each live
    /// enemy dies together with the first live shot inside its bounding
    /// rectangle, that shot dies too, and each such pair scores exactly one
    /// hit. Returns the number of hits of the pass.
    #[verifier::loop_isolation(false)]
    pub fn handle_collisions(&mut self) -> (hits: u32)
        requires
            forall|k: int| 0 <= k < old(self)@.enemies.len()
                ==> enemy_boundable(#[trigger] old(self)@.enemies[k]),
            old(self)@.score + old(self)@.enemies.len() <= u32::MAX,
        ensures
            ({
                let out = spec_collide_from(old(self)@.enemies, old(self)@.shots, 0);
                &&& final(self)@ == (WorldV {
                    enemies: out.enemies,
                    shots: out.shots,
                    score: old(self)@.score + out.hits,
                    ..old(self)@
                })
                &&& hits == out.hits
            }),
    {
        let ghost orig_e = views_of_enemies(self.enemies@);
        let ghost orig_s = views_of_shots(self.shots@);
        let ghost total = spec_collide_from(orig_e, orig_s, 0);
        let mut hits: u32 = 0;
        let mut i: usize = 0;
        while i < self.enemies.len()
            invariant
                0 <= i <= self.enemies@.len(),
                self.enemies@.len() == orig_e.len(),
                self.shots@.len() == orig_s.len(),
                hits <= i,
                self.score as int == old(self).score + hits,
                self.game_over == old(self).game_over,
                self.killed_by@ == old(self).killed_by@,
                self.player == old(self).player,
                self.time_until_next_enemy == old(self).time_until_next_enemy,
                self.screen_width == old(self).screen_width,
                self.screen_height == old(self).screen_height,
                self.debug_mode == old(self).debug_mode,
                self.labels@ == old(self).labels@,
                self.footprints@ == old(self).footprints@,
                forall|k: int| 0 <= k < self.enemies@.len()
                    ==> enemy_boundable(#[trigger] views_of_enemies(self.enemies@)[k]),
                ({
                    let rem = spec_collide_from(
                        views_of_enemies(self.enemies@),
                        views_of_shots(self.shots@),
                        i as int,
                    );
                    &&& total.enemies == rem.enemies
                    &&& total.shots == rem.shots
                    &&& total.hits == hits + rem.hits
                }),
            decreases self.enemies@.len() - i,
        {
            let ghost pre_e = views_of_enemies(self.enemies@);
            let ghost pre_s = views_of_shots(self.shots@);
            let ghost ev = pre_e[i as int];
            proof {
                assert(ev == self.enemies@[i as int]@);
                assert(enemy_boundable(ev));
            }
            if self.enemies[i].is_alive {
                let rect = self.enemies[i].bounding_rect();
                let mut j: usize = 0;
                let mut found: bool = false;
                let mut hit_j: usize = 0;
                while j < self.shots.len()
                    invariant
                        0 <= j <= self.shots@.len(),
                        found ==> (hit_j as int) < j && spec_live_hit(ev, pre_s[hit_j as int])
                            && (forall|m: int| 0 <= m < hit_j
                                ==> !spec_live_hit(ev, #[trigger] pre_s[m])),
                        !found ==> (forall|m: int| 0 <= m < j
                            ==> !spec_live_hit(ev, #[trigger] pre_s[m])),
                    decreases self.shots@.len() - j,
                {
                    if !found {
                        let s = self.shots[j];
                        proof {
                            assert(s@ == pre_s[j as int]);
                        }
                        if s.is_alive && rect.contains(s.pos) {
                            found = true;
                            hit_j = j;
                        }
                    }
                    j = j + 1;
                }
                proof {
                    lemma_first_hit_props(ev, pre_s, 0);
                }
                if found {
                    proof {
                        match spec_first_hit(ev, pre_s, 0) {
                            Some(k) => {
                                if k < hit_j as int {
                                    assert(!spec_live_hit(ev, pre_s[k]));
                                    assert(false);
                                }
                                if k > hit_j as int {
                                    assert(!spec_live_hit(ev, pre_s[hit_j as int]));
                                    assert(false);
                                }
                            },
                            None => {
                                assert(!spec_live_hit(ev, pre_s[hit_j as int]));
                                assert(false);
                            },
                        }
                        assert(spec_first_hit(ev, pre_s, 0) == Some(hit_j as int));
                    }
                    let ghost before_e = self.enemies@;
                    let mut en = self.enemies.remove(i);
                    en.is_alive = false;
                    self.enemies.insert(i, en);
                    let mut sh = self.shots[hit_j];
                    sh.is_alive = false;
                    self.shots[hit_j] = sh;
                    self.score = self.score + 1;
                    hits = hits + 1;
                    proof {
                        lemma_remove_insert(before_e, i as int, en);
                        assert(self.enemies@ == before_e.update(i as int, en));
                        assert(views_of_enemies(self.enemies@) =~= pre_e.update(
                            i as int,
                            spec_dead_enemy(ev),
                        ));
                        assert(views_of_shots(self.shots@) =~= pre_s.update(
                            hit_j as int,
                            spec_dead_shot(pre_s[hit_j as int]),
                        ));
                        let rest = spec_collide_from(
                            pre_e.update(i as int, spec_dead_enemy(ev)),
                            pre_s.update(hit_j as int, spec_dead_shot(pre_s[hit_j as int])),
                            (i + 1) as int,
                        );
                        assert(spec_collide_from(pre_e, pre_s, i as int) == (CollideOut {
                            hits: rest.hits + 1,
                            ..rest
                        }));
                        assert forall|k: int| 0 <= k < self.enemies@.len()
                            implies enemy_boundable(
                            #[trigger] views_of_enemies(self.enemies@)[k],
                        ) by {
                            assert(enemy_boundable(pre_e[k]));
                        }
                    }
                } else {
                    proof {
                        assert(spec_collide_from(pre_e, pre_s, i as int) == spec_collide_from(
                            pre_e,
                            pre_s,
                            (i + 1) as int,
                        ));
                    }
                }
            } else {
                proof {
                    assert(spec_collide_from(pre_e, pre_s, i as int) == spec_collide_from(
                        pre_e,
                        pre_s,
                        (i + 1) as int,
                    ));
                }
            }
            i = i + 1;
        }
        proof {
            assert(spec_collide_from(
                views_of_enemies(self.enemies@),
                views_of_shots(self.shots@),
                i as int,
            ).hits == 0);
            assert(self@ =~= (WorldV {
                enemies: total.enemies,
                shots: total.shots,
                score: old(self)@.score + total.hits,
                ..old(self)@
            }));
        }
        hits
    }

    /// Removes every shot that is dead or has left the top of the play area,
    /// and every dead enemy. Nothing else changes.
    pub fn prune(&mut self)
        ensures
            final(self)@ == spec_pruned(old(self)@),
    {
        prune_shots(&mut self.shots);
        prune_enemies(&mut self.enemies);
        proof {
            assert(self@ =~= spec_pruned(old(self)@));
        }
    }
}

/// The fixed list of enemy labels the spawner draws from.
pub fn enemy_labels() -> (labels: Vec<String>)
    ensures
        labels@.len() == 7,
        labels@[0]@ == "Segfaults"@,
        labels@[1]@ == "Undefined Behaviour"@,
        labels@[2]@ == "NULLs"@,
        labels@[3]@ == "Inefficiencies"@,
        labels@[4]@ == "Bloat"@,
        labels@[5]@ == "Unnecessary Heap\nAllocations"@,
        labels@[6]@ == "Data Races"@,
{
    let mut labels: Vec<String> = Vec::new();
    labels.push("Segfaults".to_owned());
    labels.push("Undefined Behaviour".to_owned());
    labels.push("NULLs".to_owned());
    labels.push("Inefficiencies".to_owned());
    labels.push("Bloat".to_owned());
    labels.push("Unnecessary Heap\nAllocations".to_owned());
    labels.push("Data Races".to_owned());
    labels
}

/// Advances every shot by `velocity * dt`.
fn move_all_shots(shots: &mut Vec<Shot>, dt: i64)
    requires
        0 <= dt <= MAX_DT,
        forall|k: int| 0 <= k < old(shots)@.len() ==> shot_movable(#[trigger] old(shots)@[k]@),
    ensures
        views_of_shots(final(shots)@) == views_of_shots(old(shots)@).map_values(
            |s: ShotV| spec_shot_moved(s, dt as int),
        ),
{
    let ghost orig = shots@;
    let mut i: usize = 0;
    while i < shots.len()
        invariant
            0 <= i <= orig.len(),
            shots@.len() == orig.len(),
            0 <= dt <= MAX_DT,
            forall|k: int| 0 <= k < orig.len() ==> shot_movable(#[trigger] orig[k]@),
            forall|k: int| 0 <= k < i ==> (#[trigger] shots@[k])@ == spec_shot_moved(
                orig[k]@,
                dt as int,
            ),
            forall|k: int| i <= k < orig.len() ==> (#[trigger] shots@[k]) == orig[k],
        decreases orig.len() - i,
    {
        let mut s: Shot = shots[i];
        proof {
            assert(shots@[i as int] == orig[i as int]);
            assert(shot_movable(orig[i as int]@));
        }
        s.update(dt);
        shots[i] = s;
        i = i + 1;
    }
    proof {
        assert(views_of_shots(shots@) =~= views_of_shots(orig).map_values(
            |s: ShotV| spec_shot_moved(s, dt as int),
        ));
    }
}

/// Advances every enemy by `velocity * dt`.
fn move_all_enemies(enemies: &mut Vec<Enemy>, dt: i64)
    requires
        0 <= dt <= MAX_DT,
        forall|k: int| 0 <= k < old(enemies)@.len() ==> enemy_movable(#[trigger] old(enemies)@[k]@),
    ensures
        views_of_enemies(final(enemies)@) == views_of_enemies(old(enemies)@).map_values(
            |e: EnemyV| spec_enemy_moved(e, dt as int),
        ),
{
    let ghost orig = enemies@;
    let mut i: usize = 0;
    while i < enemies.len()
        invariant
            0 <= i <= orig.len(),
            enemies@.len() == orig.len(),
            0 <= dt <= MAX_DT,
            forall|k: int| 0 <= k < orig.len() ==> enemy_movable(#[trigger] orig[k]@),
            forall|k: int| 0 <= k < i ==> (#[trigger] enemies@[k])@ == spec_enemy_moved(
                orig[k]@,
                dt as int,
            ),
            forall|k: int| i <= k < orig.len() ==> (#[trigger] enemies@[k]) == orig[k],
        decreases orig.len() - i,
    {
        let ghost before = enemies@;
        let mut e: Enemy = enemies.remove(i);
        proof {
            assert(before[i as int] == orig[i as int]);
            assert(enemy_movable(orig[i as int]@));
        }
        e.update(dt);
        enemies.insert(i, e);
        proof {
            lemma_remove_insert(before, i as int, e);
            assert(enemies@ == before.update(i as int, e));
        }
        i = i + 1;
    }
    proof {
        assert(views_of_enemies(enemies@) =~= views_of_enemies(orig).map_values(
            |e: EnemyV| spec_enemy_moved(e, dt as int),
        ));
    }
}

/// Keeps exactly the live shots that are still inside the play area.
fn prune_shots(shots: &mut Vec<Shot>)
    ensures
        views_of_shots(final(shots)@) == views_of_shots(old(shots)@).filter(
            |s: ShotV| spec_shot_kept(s),
        ),
{
    let ghost orig = shots@;
    let mut kept: Vec<Shot> = Vec::new();
    let mut i: usize = 0;
    while i < shots.len()
        invariant
            0 <= i <= orig.len(),
            shots@ == orig,
            views_of_shots(kept@) == views_of_shots(orig.take(i as int)).filter(
                |s: ShotV| spec_shot_kept(s),
            ),
        decreases orig.len() - i,
    {
        let ghost kept_before = kept@;
        let s = shots[i];
        if s.is_alive && s.pos.y >= 0 {
            kept.push(s);
        }
        proof {
            assert(orig.take(i + 1 as int) =~= orig.take(i as int).push(orig[i as int]));
            assert(views_of_shots(orig.take(i as int).push(orig[i as int])) =~= views_of_shots(
                orig.take(i as int),
            ).push(orig[i as int]@));
            lemma_filter_push(
                views_of_shots(orig.take(i as int)),
                orig[i as int]@,
                |s: ShotV| spec_shot_kept(s),
            );
            if spec_shot_kept(orig[i as int]@) {
                assert(views_of_shots(kept@) =~= views_of_shots(kept_before).push(orig[i as int]@));
            }
        }
        i = i + 1;
    }
    proof {
        assert(orig.take(orig.len() as int) =~= orig);
    }
    *shots = kept;
}

/// Keeps exactly the live enemies.
fn prune_enemies(enemies: &mut Vec<Enemy>)
    ensures
        views_of_enemies(final(enemies)@) == views_of_enemies(old(enemies)@).filter(
            |e: EnemyV| spec_enemy_kept(e),
        ),
{
    let ghost orig = enemies@;
    let mut kept: Vec<Enemy> = Vec::new();
    while enemies.len() > 0
        invariant
            enemies@.len() <= orig.len(),
            enemies@ == orig.skip((orig.len() - enemies@.len()) as int),
            views_of_enemies(kept@) == views_of_enemies(
                orig.take((orig.len() - enemies@.len()) as int),
            ).filter(|e: EnemyV| spec_enemy_kept(e)),
        decreases enemies@.len(),
    {
        let ghost k = orig.len() - enemies@.len();
        let ghost kept_before = kept@;
        let e = enemies.remove(0);
        proof {
            assert(e == orig[k as int]);
            assert(enemies@ =~= orig.skip((k + 1) as int));
            assert(orig.take((k + 1) as int) =~= orig.take(k as int).push(orig[k as int]));
            assert(views_of_enemies(orig.take(k as int).push(orig[k as int])) =~= views_of_enemies(
                orig.take(k as int),
            ).push(orig[k as int]@));
            lemma_filter_push(
                views_of_enemies(orig.take(k as int)),
                orig[k as int]@,
                |e: EnemyV| spec_enemy_kept(e),
            );
        }
        if e.is_alive {
            kept.push(e);
            proof {
                assert(views_of_enemies(kept@) =~= views_of_enemies(kept_before).push(
                    orig[k as int]@,
                ));
            }
        }
    }
    proof {
        assert(orig.take(orig.len() as int) =~= orig);
    }
    *enemies = kept;
}

} // verus!
