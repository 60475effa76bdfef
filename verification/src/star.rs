//! Stars: what the player collects.

use vstd::prelude::*;

pub mod components;
pub mod resources;
pub mod systems;

verus! {

/// How many stars there are at the start.
pub const NUMBER_OF_STARS: usize = 10;

/// The width of a star, in thousandths of a pixel.
pub const STAR_SIZE: i64 = 30_000;

/// The time between two new stars, in nanoseconds.
pub const STAR_SPAWN_TIME: u64 = 1_000_000_000;

/// How often a place for a new star is drawn again because it is too
/// close to an enemy.
pub const MAX_ATTEMPTS: u32 = 11;

} // verus!
