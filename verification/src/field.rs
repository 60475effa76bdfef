//! The play field and the confinement of a ball to it.

use vstd::prelude::*;
use crate::vec2::Vec2;

verus! {

/// The rectangle that the balls live in, with one corner at the origin.
/// Width and height are counted in thousandths of a pixel.
#[derive(Clone, Copy, Debug, PartialEq, Eq, Structural)]
pub struct Field {
    pub width: u32,
    pub height: u32,
}

/// `x` pulled into the range from `lo` to `hi`: a number under `lo`
/// becomes `lo`, any other number over `hi` becomes `hi`.
pub open spec fn clamped(x: int, lo: int, hi: int) -> int {
    if x < lo {
        lo
    } else if x > hi {
        hi
    } else {
        x
    }
}

/// Whether a coordinate lies outside the range from `lo` to `hi`.
pub open spec fn outside(x: int, lo: int, hi: int) -> bool {
    x < lo || x > hi
}

impl Field {
    /// Whether a point lies on the field: at or after the origin and
    /// before the far edges. On a field without width or height the
    /// origin's coordinate is the only one.
    pub open spec fn contains(self, p: Vec2) -> bool {
        &&& 0 <= p.x && (p.x < self.width || p.x == 0)
        &&& 0 <= p.y && (p.y < self.height || p.y == 0)
    }

    /// The middle of the field.
    pub open spec fn center(self) -> Vec2 {
        Vec2 { x: (self.width / 2) as i64, y: (self.height / 2) as i64 }
    }

    /// Where the centre of a ball of the given radius comes to rest when
    /// it is kept on the field: each coordinate is pulled into the range
    /// from `radius` to the far edge less `radius`.
    pub open spec fn confined(self, p: Vec2, radius: int) -> Vec2 {
        Vec2 {
            x: clamped(p.x as int, radius, self.width - radius) as i64,
            y: clamped(p.y as int, radius, self.height - radius) as i64,
        }
    }

    /// Whether a ball of the given radius has left the field to the left
    /// or to the right.
    pub open spec fn outside_x(self, p: Vec2, radius: int) -> bool {
        outside(p.x as int, radius, self.width - radius)
    }

    /// Whether a ball of the given radius has left the field at the top or
    /// at the bottom.
    pub open spec fn outside_y(self, p: Vec2, radius: int) -> bool {
        outside(p.y as int, radius, self.height - radius)
    }

    pub fn new(width: u32, height: u32) -> (field: Field)
        ensures
            field == (Field { width, height }),
    {
        Field { width, height }
    }

    /// The middle of the field.
    pub fn middle(&self) -> (p: Vec2)
        ensures
            p == self.center(),
    {
        Vec2 { x: (self.width / 2) as i64, y: (self.height / 2) as i64 }
    }

    /// Keeps the centre of a ball of the given radius on the field.
    pub fn confine(&self, p: Vec2, radius: i64) -> (q: Vec2)
        ensures
            q == self.confined(p, radius as int),
    {
        Vec2 {
            x: clamp(p.x, radius, self.width as i128 - radius as i128),
            y: clamp(p.y, radius, self.height as i128 - radius as i128),
        }
    }

    /// Tests whether a ball of the given radius has left the field to the
    /// left or to the right.
    pub fn is_outside_x(&self, p: Vec2, radius: i64) -> (b: bool)
        ensures
            b == self.outside_x(p, radius as int),
    {
        p.x < radius || p.x as i128 > self.width as i128 - radius as i128
    }

    /// Tests whether a ball of the given radius has left the field at the
    /// top or at the bottom.
    pub fn is_outside_y(&self, p: Vec2, radius: i64) -> (b: bool)
        ensures
            b == self.outside_y(p, radius as int),
    {
        p.y < radius || p.y as i128 > self.height as i128 - radius as i128
    }
}

/// Pulls `x` into the range from `lo` to `hi`.
fn clamp(x: i64, lo: i64, hi: i128) -> (r: i64)
    requires
        i64::MIN <= hi,
    ensures
        r == clamped(x as int, lo as int, hi as int),
{
    if x < lo {
        lo
    } else if x as i128 > hi {
        hi as i64
    } else {
        x
    }
}

/// Confinement is idempotent on a range that is not empty: a coordinate
/// that was pulled into the range stays where it is when it is pulled in
/// again.
pub proof fn lemma_clamped_twice(x: int, lo: int, hi: int)
    requires
        lo <= hi,
    ensures
        clamped(clamped(x, lo, hi), lo, hi) == clamped(x, lo, hi),
        lo <= clamped(x, lo, hi) <= hi,
{
}

/// On a field that has room for the ball, confining a position twice
/// gives what confining it once gives, and the ball is then inside.
pub proof fn lemma_confined_twice(field: Field, p: Vec2, radius: i64)
    requires
        2 * radius <= field.width,
        2 * radius <= field.height,
    ensures
        field.confined(field.confined(p, radius as int), radius as int) == field.confined(
            p,
            radius as int,
        ),
        !field.outside_x(field.confined(p, radius as int), radius as int),
        !field.outside_y(field.confined(p, radius as int), radius as int),
{
    lemma_clamped_twice(p.x as int, radius as int, field.width - radius);
    lemma_clamped_twice(p.y as int, radius as int, field.height - radius);
}

} // verus!
