//! Enemies: balls that cross the field in a straight line, turn round at
//! its edges and bounce off the stars.

use vstd::prelude::*;
use crate::star::STAR_SIZE;

pub mod components;
pub mod resources;
pub mod systems;

verus! {

/// How many enemies there are at the start.
pub const NUMBER_OF_ENEMIES: usize = 4;

/// The speed of an enemy, in thousandths of a pixel per second.
pub const ENEMY_SPEED: i64 = 200_000;

/// The width of an enemy, in thousandths of a pixel.
pub const ENEMY_SIZE: i64 = 64_000;

/// The time between two new enemies, in nanoseconds.
pub const ENEMY_SPAWN_TIME: u64 = 5_000_000_000;

/// How far from every enemy a new star is to lie: an enemy and a star
/// side by side, and a margin of twenty pixels.
pub const SAFE_DISTANCE: i64 = ENEMY_SIZE + STAR_SIZE + 20_000;

} // verus!
