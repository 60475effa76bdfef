//! What a tick tells the host that draws the game and plays its sounds.

use vstd::prelude::*;
use crate::vec2::Vec2;

verus! {

/// The three kinds of ball.
#[derive(Clone, Copy, Debug, PartialEq, Eq, Structural)]
pub enum EntityKind {
    Player,
    Enemy,
    Star,
}

/// Something that happened during a tick, for the host to act on.
#[derive(Clone, Copy, Debug, PartialEq, Eq)]
pub enum GameEvent {
    /// A ball came into being; `direction` is where it heads, if it moves
    /// by itself.
    Spawned { kind: EntityKind, id: u64, position: Vec2, direction: Option<Vec2> },
    /// A ball is gone.
    Despawned { id: u64 },
    /// An enemy turned round at the edge of the field.
    DirectionReversed { id: u64 },
    /// The player picked up a star.
    StarCollected,
    /// An enemy caught the player.
    GameOver,
}

} // verus!
