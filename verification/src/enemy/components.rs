use vstd::prelude::*;
use crate::enemy::{ENEMY_SIZE, ENEMY_SPEED};
use crate::field::Field;
use crate::motion::moved;
use crate::star::components::Star;
use crate::star::STAR_SIZE;
use crate::vec2::Vec2;

verus! {

/// An enemy. Its direction has the length `UNIT`, up to rounding.
#[derive(Clone, Copy, Debug, PartialEq, Eq, Structural)]
pub struct Enemy {
    pub id: u64,
    pub position: Vec2,
    pub direction: Vec2,
}

impl Enemy {
    /// The enemy's direction is a direction.
    pub open spec fn wf(self) -> bool {
        self.direction.is_unit()
    }

    /// The enemy after `dt_ns` nanoseconds on its way.
    pub open spec fn moved(self, dt_ns: int) -> Enemy {
        Enemy {
            position: moved(self.position, self.direction, ENEMY_SPEED as int, dt_ns),
            ..self
        }
    }

    /// Whether the enemy has left the field on either axis.
    pub open spec fn left_field(self, field: Field) -> bool {
        field.outside_x(self.position, ENEMY_SIZE / 2) || field.outside_y(
            self.position,
            ENEMY_SIZE / 2,
        )
    }

    /// The enemy after it has turned round on each axis on which it has
    /// left the field.
    pub open spec fn turned(self, field: Field) -> Enemy {
        Enemy {
            direction: Vec2 {
                x: if field.outside_x(self.position, ENEMY_SIZE / 2) {
                    (-self.direction.x) as i64
                } else {
                    self.direction.x
                },
                y: if field.outside_y(self.position, ENEMY_SIZE / 2) {
                    (-self.direction.y) as i64
                } else {
                    self.direction.y
                },
            },
            ..self
        }
    }

    /// The enemy put back on the field. Its direction stays as it is.
    pub open spec fn confined(self, field: Field) -> Enemy {
        Enemy { position: field.confined(self.position, ENEMY_SIZE / 2), ..self }
    }

    /// The way from the enemy to a star.
    pub open spec fn way_to(self, star: Star) -> Vec2 {
        Vec2 {
            x: (star.position.x - self.position.x) as i64,
            y: (star.position.y - self.position.y) as i64,
        }
    }

    /// Whether the enemy touches a star: their centres are no further
    /// apart than their radii together. Touching at the rim counts.
    pub open spec fn hits(self, star: Star) -> bool {
        self.position.touches(star.position, ENEMY_SIZE / 2 + STAR_SIZE / 2)
    }

    /// The enemy after it has met a star: where it touches the star, and
    /// the two are not in one place, its direction is reflected about the
    /// way to the star.
    pub open spec fn bounced(self, star: Star) -> Enemy {
        if self.hits(star) && !self.way_to(star).is_zero() {
            Enemy { direction: self.direction.reflected(self.way_to(star)), ..self }
        } else {
            self
        }
    }

    /// The enemy after it has met each of the stars in turn.
    pub open spec fn bounced_all(self, stars: Seq<Star>) -> Enemy
        decreases stars.len(),
    {
        if stars.len() == 0 {
            self
        } else {
            self.bounced_all(stars.drop_last()).bounced(stars.last())
        }
    }
}

/// Every enemy's direction is a direction.
pub open spec fn all_wf(enemies: Seq<Enemy>) -> bool {
    forall|i: int| 0 <= i < enemies.len() ==> (#[trigger] enemies[i]).wf()
}

/// Tests whether every enemy's direction is a direction.
pub fn are_all_wf(enemies: &Vec<Enemy>) -> (b: bool)
    ensures
        b == all_wf(enemies@),
{
    let n: usize = enemies.len();
    let mut i: usize = 0;
    while i < n
        invariant
            i <= n,
            n == enemies@.len(),
            forall|j: int| 0 <= j < i ==> (#[trigger] enemies@[j]).wf(),
        decreases n - i,
    {
        if !enemies[i].direction.is_direction() {
            return false;
        }
        i += 1;
    }
    true
}

} // verus!
