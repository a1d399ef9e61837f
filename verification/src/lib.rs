//! Core simulation of a fixed-timestep arcade shooter: a player moves along
//! the bottom of the play area and fires shots upward, while labeled enemies
//! fall from the top at randomized positions, speeds and intervals.
//!
//! All quantities are integers in fixed-point units so that every rule of the
//! simulation is exact:
//! - positions and lengths are in *position units*, [`PIXEL`] units per pixel;
//! - time is in *time units*, [`SECOND`] units per second (one unit is one
//!   frame of the fixed 60 Hz step);
//! - velocities are in position units per time unit, so a body moving at one
//!   pixel per second advances [`PIXEL_PER_SECOND`] position units per time
//!   unit.
//!
//! Rendering, audio and input belong to the host: the simulation consumes a
//! per-frame input signal and screen bounds, and reports requested sound
//! effects as values.

use vstd::prelude::*;

pub mod entities;
pub mod model;
mod rng;
pub mod world;

verus! {

/// Position units per pixel.
pub const PIXEL: i64 = 60000;

/// Time units per second; one time unit is one fixed simulation step.
pub const SECOND: i64 = 60;

/// Velocity units (position units per time unit) of one pixel per second.
pub const PIXEL_PER_SECOND: i64 = 1000;

/// The movement intent of magnitude one; intents are given in thousandths.
pub const FULL_INTENT: i64 = 1000;

/// Player speed at full intent, in pixels per second.
pub const PLAYER_SPEED: i64 = 500;

/// Upward speed of a shot, in pixels per second.
pub const SHOT_SPEED: i64 = 500;

/// Cooldown between consecutive shots: one second.
pub const SHOT_TIMEOUT: i64 = 60;

/// Horizontal offset of a newly fired shot from the player's position.
pub const SHOT_OFFSET_X: i64 = -75 * PIXEL;

/// Vertical offset of a newly fired shot from the player's position.
pub const SHOT_OFFSET_Y: i64 = -80 * PIXEL;

/// Enemies spawn with their x drawn from `[0, screen_width - SPAWN_MARGIN)`.
pub const SPAWN_MARGIN: i64 = 100 * PIXEL;

/// Lowest randomized enemy speed, in pixels per second (inclusive).
pub const ENEMY_SPEED_MIN: i64 = 50;

/// Highest randomized enemy speed, in pixels per second (exclusive).
pub const ENEMY_SPEED_MAX: i64 = 200;

/// Shortest randomized delay until the next enemy: half a second (inclusive).
pub const SPAWN_DELAY_MIN: i64 = 30;

/// Longest randomized delay until the next enemy: 1.8 seconds (exclusive).
pub const SPAWN_DELAY_MAX: i64 = 108;

/// Delay before the first enemy of a fresh simulation: one second.
pub const FIRST_SPAWN_DELAY: i64 = 60;

/// Largest accepted screen dimension or footprint side, in position units.
pub const MAX_DIM: i64 = 1_000_000_000_000;

/// Largest accepted time step, in time units.
pub const MAX_DT: i64 = 1_000_000;

/// Largest accepted movement intent magnitude, in thousandths.
pub const MAX_INTENT: i64 = 1_000_000;

/// Largest accepted enemy speed, in pixels per second.
pub const MAX_ENEMY_SPEED: i64 = 1_000_000;

/// Largest accepted velocity magnitude, in position units per time unit.
pub const MAX_VEL: i64 = 1_000_000_000;

/// Largest accepted number of enemy labels.
pub const MAX_LABELS: usize = 1_000_000;

/// Coordinates stay within this magnitude for every overflow argument here:
/// one step from anywhere on screen stays far below it.
pub const COORD_LIMIT: i64 = 100_000_000_000_000_000;

} // verus!
