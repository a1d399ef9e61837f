//! The three entity kinds of the simulation — the player, its shots and the
//! falling enemies — with their per-kind movement rules.

use vstd::prelude::*;

use crate::{
    COORD_LIMIT, MAX_DIM, MAX_DT, MAX_ENEMY_SPEED, MAX_INTENT, MAX_VEL, PIXEL_PER_SECOND,
    PLAYER_SPEED, SHOT_SPEED, SHOT_TIMEOUT,
};

verus! {

/// A position or displacement in the play area, in position units.
#[derive(Clone, Copy, Debug, PartialEq, Eq)]
pub struct Vec2 {
    pub x: i64,
    pub y: i64,
}

/// Mathematical model of a [`Vec2`].
#[verifier::ext_equal]
pub ghost struct Vec2V {
    pub x: int,
    pub y: int,
}

impl View for Vec2 {
    type V = Vec2V;

    open spec fn view(&self) -> Vec2V {
        Vec2V { x: self.x as int, y: self.y as int }
    }
}

/// The collision rectangle of an enemy label, in position units, as supplied
/// by the host's sizing capability.
#[derive(Clone, Copy, Debug, PartialEq, Eq)]
pub struct Footprint {
    pub width: i64,
    pub height: i64,
}

/// An axis-aligned rectangle anchored at its top-left corner.
#[derive(Clone, Copy, Debug, PartialEq, Eq)]
pub struct Rect {
    pub x: i64,
    pub y: i64,
    pub w: i64,
    pub h: i64,
}

/// Whether the point `(px, py)` lies within the rectangle with top-left
/// corner `(x, y)`, width `w` and height `h`, all edges inclusive.
pub open spec fn spec_rect_contains(x: int, y: int, w: int, h: int, px: int, py: int) -> bool {
    &&& x <= px <= x + w
    &&& y <= py <= y + h
}

impl Rect {
    /// Whether `p` lies within this rectangle, edges inclusive.
    pub fn contains(&self, p: Vec2) -> (r: bool)
        requires
            -COORD_LIMIT <= self.x <= COORD_LIMIT,
            -COORD_LIMIT <= self.y <= COORD_LIMIT,
            0 <= self.w <= MAX_DIM,
            0 <= self.h <= MAX_DIM,
        ensures
            r == spec_rect_contains(
                self.x as int,
                self.y as int,
                self.w as int,
                self.h as int,
                p.x as int,
                p.y as int,
            ),
    {
        self.x <= p.x && p.x <= self.x + self.w && self.y <= p.y && p.y <= self.y + self.h
    }
}

/// The player's presentation state: a hint for the renderer, never read by
/// the simulation rules themselves.
#[derive(Clone, Copy, Debug, PartialEq, Eq)]
pub enum PlayerState {
    Normal,
    Shooting,
}

/// The player: moves along the bottom edge of the play area and fires shots.
#[derive(Clone, Copy, Debug)]
pub struct Player {
    pub state: PlayerState,
    pub pos: Vec2,
    /// Time units until the next shot may be fired; may go negative.
    pub time_until_next_shot: i64,
}

/// Mathematical model of a [`Player`].
#[verifier::ext_equal]
pub ghost struct PlayerV {
    pub state: PlayerState,
    pub x: int,
    pub y: int,
    pub cooldown: int,
}

impl View for Player {
    type V = PlayerV;

    open spec fn view(&self) -> PlayerV {
        PlayerV {
            state: self.state,
            x: self.pos.x as int,
            y: self.pos.y as int,
            cooldown: self.time_until_next_shot as int,
        }
    }
}

/// `v` clamped to the closed interval `[lo, hi]`.
pub open spec fn spec_clamp(v: int, lo: int, hi: int) -> int {
    if v < lo {
        lo
    } else if v > hi {
        hi
    } else {
        v
    }
}

/// The player's x after moving with intent `amount` (in thousandths) for
/// `dt` time units, clamped to `[0, max_right]`.
pub open spec fn spec_player_moved_x(x: int, amount: int, dt: int, max_right: int) -> int {
    spec_clamp(x + PLAYER_SPEED * amount * dt, 0, max_right)
}

impl Player {
    /// A fresh player at `pos`, not shooting, with a full cooldown pending.
    pub fn new(pos: Vec2) -> (p: Player)
        ensures
            p@ == (PlayerV {
                state: PlayerState::Normal,
                x: pos.x as int,
                y: pos.y as int,
                cooldown: SHOT_TIMEOUT as int,
            }),
    {
        Player { state: PlayerState::Normal, pos, time_until_next_shot: SHOT_TIMEOUT }
    }

    /// Moves the player horizontally by `PLAYER_SPEED * amount * dt` position
    /// units and clamps the result to `[0, max_right]`; nothing else changes.
    pub fn update(&mut self, amount: i64, dt: i64, max_right: i64)
        requires
            -COORD_LIMIT <= old(self).pos.x <= COORD_LIMIT,
            -MAX_INTENT <= amount <= MAX_INTENT,
            0 <= dt <= MAX_DT,
            0 <= max_right <= MAX_DIM,
        ensures
            final(self)@ == (PlayerV {
                x: spec_player_moved_x(old(self).pos.x as int, amount as int, dt as int, max_right as int),
                ..old(self)@
            }),
    {
        proof {
            assert((PLAYER_SPEED as int) * (amount as int) * (dt as int)
                <= 500 * 1_000_000 * 1_000_000
                && (PLAYER_SPEED as int) * (amount as int) * (dt as int)
                >= -(500 * 1_000_000 * 1_000_000)) by (nonlinear_arith)
                requires
                    -MAX_INTENT <= amount <= MAX_INTENT,
                    0 <= dt <= MAX_DT,
            ;
        }
        let delta: i128 = (PLAYER_SPEED as i128) * (amount as i128) * (dt as i128);
        let moved: i128 = (self.pos.x as i128) + delta;
        let clamped: i64 = if moved < 0 {
            0
        } else if moved > (max_right as i128) {
            max_right
        } else {
            moved as i64
        };
        self.pos.x = clamped;
    }
}

/// A projectile fired by the player; rises at a fixed speed.
#[derive(Clone, Copy, Debug)]
pub struct Shot {
    pub pos: Vec2,
    pub is_alive: bool,
    pub velocity: Vec2,
}

/// Mathematical model of a [`Shot`].
#[verifier::ext_equal]
pub ghost struct ShotV {
    pub x: int,
    pub y: int,
    pub vx: int,
    pub vy: int,
    pub alive: bool,
}

impl View for Shot {
    type V = ShotV;

    open spec fn view(&self) -> ShotV {
        ShotV {
            x: self.pos.x as int,
            y: self.pos.y as int,
            vx: self.velocity.x as int,
            vy: self.velocity.y as int,
            alive: self.is_alive,
        }
    }
}

/// The shot created at `p`: alive, with the fixed upward velocity.
pub open spec fn spec_shot_new(p: Vec2V) -> ShotV {
    ShotV { x: p.x, y: p.y, vx: 0, vy: -SHOT_SPEED * PIXEL_PER_SECOND, alive: true }
}

/// `s` after `dt` time units of linear motion.
pub open spec fn spec_shot_moved(s: ShotV, dt: int) -> ShotV {
    ShotV { x: s.x + s.vx * dt, y: s.y + s.vy * dt, ..s }
}

impl Shot {
    /// A fresh shot at `pos`, alive, moving straight up at [`SHOT_SPEED`]
    /// pixels per second.
    pub fn new(pos: Vec2) -> (s: Shot)
        ensures
            s@ == spec_shot_new(pos@),
    {
        Shot {
            pos,
            is_alive: true,
            velocity: Vec2 { x: 0, y: -SHOT_SPEED * PIXEL_PER_SECOND },
        }
    }

    /// Advances the shot by `velocity * dt`; liveness and velocity are kept.
    pub fn update(&mut self, dt: i64)
        requires
            0 <= dt <= MAX_DT,
            -MAX_VEL <= old(self).velocity.x <= MAX_VEL,
            -MAX_VEL <= old(self).velocity.y <= MAX_VEL,
            -COORD_LIMIT <= old(self).pos.x <= COORD_LIMIT,
            -COORD_LIMIT <= old(self).pos.y <= COORD_LIMIT,
        ensures
            final(self)@ == spec_shot_moved(old(self)@, dt as int),
    {
        move_linear(&mut self.pos, self.velocity, dt);
    }
}

/// Advances `pos` by `velocity * dt`: the shared linear (Euler) integration
/// step of shots and enemies.
fn move_linear(pos: &mut Vec2, velocity: Vec2, dt: i64)
    requires
        0 <= dt <= MAX_DT,
        -MAX_VEL <= velocity.x <= MAX_VEL,
        -MAX_VEL <= velocity.y <= MAX_VEL,
        -COORD_LIMIT <= old(pos).x <= COORD_LIMIT,
        -COORD_LIMIT <= old(pos).y <= COORD_LIMIT,
    ensures
        final(pos).x as int == old(pos).x + velocity.x * dt,
        final(pos).y as int == old(pos).y + velocity.y * dt,
{
    proof {
        assert((velocity.x as int) * (dt as int) <= 1_000_000_000 * 1_000_000
            && (velocity.x as int) * (dt as int) >= -(1_000_000_000 * 1_000_000)
            && (velocity.y as int) * (dt as int) <= 1_000_000_000 * 1_000_000
            && (velocity.y as int) * (dt as int) >= -(1_000_000_000 * 1_000_000)) by (nonlinear_arith)
            requires
                0 <= dt <= MAX_DT,
                -MAX_VEL <= velocity.x <= MAX_VEL,
                -MAX_VEL <= velocity.y <= MAX_VEL,
        ;
    }
    let dx: i128 = (velocity.x as i128) * (dt as i128);
    let dy: i128 = (velocity.y as i128) * (dt as i128);
    pos.x = ((pos.x as i128) + dx) as i64;
    pos.y = ((pos.y as i128) + dy) as i64;
}

/// A falling labeled enemy.
#[derive(Debug)]
pub struct Enemy {
    pub pos: Vec2,
    pub is_alive: bool,
    pub label: String,
    pub velocity: Vec2,
    /// Collision rectangle cached at creation from the sizing capability.
    pub footprint: Footprint,
}

/// Mathematical model of an [`Enemy`].
#[verifier::ext_equal]
pub ghost struct EnemyV {
    pub x: int,
    pub y: int,
    pub vx: int,
    pub vy: int,
    pub alive: bool,
    pub label: Seq<char>,
    pub width: int,
    pub height: int,
}

impl View for Enemy {
    type V = EnemyV;

    open spec fn view(&self) -> EnemyV {
        EnemyV {
            x: self.pos.x as int,
            y: self.pos.y as int,
            vx: self.velocity.x as int,
            vy: self.velocity.y as int,
            alive: self.is_alive,
            label: self.label@,
            width: self.footprint.width as int,
            height: self.footprint.height as int,
        }
    }
}

/// The enemy created at `p` with downward speed `speed` (pixels per second),
/// label `label` and collision rectangle `width` by `height`.
pub open spec fn spec_enemy_new(
    label: Seq<char>,
    p: Vec2V,
    speed: int,
    width: int,
    height: int,
) -> EnemyV {
    EnemyV {
        x: p.x,
        y: p.y,
        vx: 0,
        vy: speed * PIXEL_PER_SECOND,
        alive: true,
        label,
        width,
        height,
    }
}

/// `e` after `dt` time units of linear motion.
pub open spec fn spec_enemy_moved(e: EnemyV, dt: int) -> EnemyV {
    EnemyV { x: e.x + e.vx * dt, y: e.y + e.vy * dt, ..e }
}

/// Whether the point `(px, py)` lies within `e`'s bounding rectangle.
pub open spec fn spec_enemy_overlaps(e: EnemyV, px: int, py: int) -> bool {
    spec_rect_contains(e.x, e.y, e.width, e.height, px, py)
}

impl Enemy {
    /// A fresh enemy at `pos`, alive, falling at `speed` pixels per second,
    /// with the given label and cached footprint.
    pub fn new(label: String, pos: Vec2, speed: i64, footprint: Footprint) -> (e: Enemy)
        requires
            0 < speed <= MAX_ENEMY_SPEED,
        ensures
            e@ == spec_enemy_new(
                label@,
                pos@,
                speed as int,
                footprint.width as int,
                footprint.height as int,
            ),
    {
        Enemy {
            pos,
            is_alive: true,
            label,
            velocity: Vec2 { x: 0, y: speed * PIXEL_PER_SECOND },
            footprint,
        }
    }

    /// The enemy's label.
    pub fn label(&self) -> (l: &str)
        ensures
            l@ == self@.label,
    {
        self.label.as_str()
    }

    /// Advances the enemy by `velocity * dt`; everything else is kept.
    pub fn update(&mut self, dt: i64)
        requires
            0 <= dt <= MAX_DT,
            -MAX_VEL <= old(self).velocity.x <= MAX_VEL,
            -MAX_VEL <= old(self).velocity.y <= MAX_VEL,
            -COORD_LIMIT <= old(self).pos.x <= COORD_LIMIT,
            -COORD_LIMIT <= old(self).pos.y <= COORD_LIMIT,
        ensures
            final(self)@ == spec_enemy_moved(old(self)@, dt as int),
    {
        move_linear(&mut self.pos, self.velocity, dt);
    }

    /// The enemy's collision rectangle: its position extended by its
    /// footprint, anchored at the top-left corner.
    pub fn bounding_rect(&self) -> (r: Rect)
        ensures
            r.x == self.pos.x,
            r.y == self.pos.y,
            r.w == self.footprint.width,
            r.h == self.footprint.height,
    {
        Rect {
            x: self.pos.x,
            y: self.pos.y,
            w: self.footprint.width,
            h: self.footprint.height,
        }
    }
}

/// Shots move strictly upward and never sideways: after any positive time,
/// a fresh shot's y has strictly decreased and its x is unchanged.
pub proof fn lemma_shots_rise(p: Vec2V, dt: int)
    requires
        dt > 0,
    ensures
        spec_shot_moved(spec_shot_new(p), dt).y < p.y,
        spec_shot_moved(spec_shot_new(p), dt).x == p.x,
{
    assert(spec_shot_new(p).vy == -500_000);
    assert((-500_000) * dt < 0) by (nonlinear_arith)
        requires
            dt > 0,
    ;
}

/// Enemies move strictly downward and never sideways: after any positive
/// time, a fresh enemy's y has strictly increased and its x is unchanged.
pub proof fn lemma_enemies_fall(label: Seq<char>, p: Vec2V, speed: int, width: int, height: int, dt: int)
    requires
        speed > 0,
        dt > 0,
    ensures
        spec_enemy_moved(spec_enemy_new(label, p, speed, width, height), dt).y > p.y,
        spec_enemy_moved(spec_enemy_new(label, p, speed, width, height), dt).x == p.x,
{
    assert(speed * PIXEL_PER_SECOND * dt > 0) by (nonlinear_arith)
        requires
            speed > 0,
            dt > 0,
    ;
}

/// The player never leaves `[0, max_right]`, whatever the intent's magnitude
/// or sign and however long the step.
pub proof fn lemma_player_stays_clamped(x: int, amount: int, dt: int, max_right: int)
    requires
        max_right >= 0,
    ensures
        0 <= spec_player_moved_x(x, amount, dt, max_right) <= max_right,
{
}

} // verus!
