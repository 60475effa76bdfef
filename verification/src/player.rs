//! The player: the ball that the keys move.

use vstd::prelude::*;

pub mod components;
pub mod systems;

verus! {

/// The speed of the player, in thousandths of a pixel per second.
pub const PLAYER_SPEED: i64 = 250_000;

/// The width of the player, in thousandths of a pixel.
pub const PLAYER_SIZE: i64 = 64_000;

} // verus!
