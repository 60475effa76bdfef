use vstd::prelude::*;
use crate::enemy::components::Enemy;
use crate::enemy::ENEMY_SIZE;
use crate::field::Field;
use crate::motion::moved;
use crate::player::{PLAYER_SIZE, PLAYER_SPEED};
use crate::star::components::Star;
use crate::star::STAR_SIZE;
use crate::vec2::{Vec2, UNIT};

verus! {

/// The player's ball.
#[derive(Clone, Copy, Debug, PartialEq, Eq, Structural)]
pub struct Player {
    pub id: u64,
    pub position: Vec2,
}

/// The movement keys that are held down.
#[derive(Clone, Copy, Debug, PartialEq, Eq, Structural)]
pub struct MoveInput {
    pub left: bool,
    pub right: bool,
    pub up: bool,
    pub down: bool,
}

impl MoveInput {
    /// The sum of what the keys ask for: one step along an axis for each
    /// key, where opposite keys cancel.
    pub open spec fn pull(self) -> Vec2 {
        Vec2 {
            x: ((if self.right { 1int } else { 0int }) - (if self.left { 1int } else { 0int }))
                as i64,
            y: ((if self.up { 1int } else { 0int }) - (if self.down { 1int } else { 0int }))
                as i64,
        }
    }

    /// Where the keys send the player: the direction of the pull, so that
    /// two keys at once are no faster than one, or nowhere when the keys
    /// cancel or none is held.
    pub open spec fn direction(self) -> Vec2 {
        if self.pull().is_zero() {
            self.pull()
        } else {
            self.pull().normalized()
        }
    }

    /// Works out where the keys send the player.
    pub fn heading(&self) -> (d: Vec2)
        ensures
            d == self.direction(),
            d.is_zero() || d.is_unit(),
            -UNIT <= d.x <= UNIT,
            -UNIT <= d.y <= UNIT,
    {
        let mut x: i64 = 0;
        let mut y: i64 = 0;
        if self.left {
            x = x - 1;
        }
        if self.right {
            x = x + 1;
        }
        if self.up {
            y = y + 1;
        }
        if self.down {
            y = y - 1;
        }
        let pull = Vec2 { x, y };
        if x == 0 && y == 0 {
            pull
        } else {
            pull.normalize()
        }
    }
}

impl Player {
    /// The player after `dt_ns` nanoseconds under the given keys.
    pub open spec fn moved(self, input: MoveInput, dt_ns: int) -> Player {
        Player {
            position: moved(self.position, input.direction(), PLAYER_SPEED as int, dt_ns),
            ..self
        }
    }

    /// The player put back on the field.
    pub open spec fn confined(self, field: Field) -> Player {
        Player { position: field.confined(self.position, PLAYER_SIZE / 2), ..self }
    }

    /// Whether an enemy catches the player: their centres are closer
    /// than their radii together. Touching at the rim does not count.
    pub open spec fn hit_by(self, enemy: Enemy) -> bool {
        self.position.overlaps(enemy.position, PLAYER_SIZE / 2 + ENEMY_SIZE / 2)
    }

    /// Whether any of the enemies catches the player.
    pub open spec fn caught(self, enemies: Seq<Enemy>) -> bool {
        exists|i: int| 0 <= i < enemies.len() && self.hit_by(#[trigger] enemies[i])
    }

    /// Whether the player picks up a star: their centres are closer than
    /// their radii together. Touching at the rim does not count.
    pub open spec fn collects(self, star: Star) -> bool {
        self.position.overlaps(star.position, PLAYER_SIZE / 2 + STAR_SIZE / 2)
    }
}

} // verus!
