//! Motion in a straight line over one tick.

use vstd::prelude::*;
use crate::field::clamped;
use crate::vec2::{trunc_div, trunc_divide, Vec2, UNIT};

verus! {

pub const NANOS_PER_SECOND: u64 = 1_000_000_000;

/// The greatest speed of a ball, in thousandths of a pixel per second.
pub const SPEED_MAX: i64 = 1_000_000_000;

/// How far a ball gets along one axis in `dt_ns` nanoseconds, in
/// thousandths of a pixel and rounded toward zero, where `component` is
/// its direction along that axis and `speed` its speed in thousandths of a
/// pixel per second.
pub open spec fn displacement(component: int, speed: int, dt_ns: int) -> int {
    trunc_div(component * speed * dt_ns, UNIT * NANOS_PER_SECOND)
}

/// A coordinate, held at the least or the greatest one there is when it
/// would pass it.
pub open spec fn saturated(x: int) -> int {
    clamped(x, i64::MIN as int, i64::MAX as int)
}

/// Whether a vector can serve as the direction of a motion: neither
/// component is longer than `UNIT`.
pub open spec fn is_heading(direction: Vec2) -> bool {
    -UNIT <= direction.x <= UNIT && -UNIT <= direction.y <= UNIT
}

/// The position of a ball that started at `p` and went in `direction` at
/// `speed` for `dt_ns` nanoseconds.
pub open spec fn moved(p: Vec2, direction: Vec2, speed: int, dt_ns: int) -> Vec2 {
    Vec2 {
        x: saturated(p.x + displacement(direction.x as int, speed, dt_ns)) as i64,
        y: saturated(p.y + displacement(direction.y as int, speed, dt_ns)) as i64,
    }
}

/// Moves one coordinate.
fn advance_axis(x: i64, component: i64, speed: i64, dt_ns: u64) -> (r: i64)
    requires
        -UNIT <= component <= UNIT,
        0 <= speed <= SPEED_MAX,
    ensures
        r == saturated(x + displacement(component as int, speed as int, dt_ns as int)),
{
    assert(-1_000_000_000_000_000 <= component * speed <= 1_000_000_000_000_000)
        by (nonlinear_arith)
        requires
            -1_000_000 <= component <= 1_000_000,
            0 <= speed <= 1_000_000_000,
    ;
    let rate: i128 = component as i128 * speed as i128;
    assert(-1_000_000_000_000_000 * 0x1_0000_0000_0000_0000 <= rate * dt_ns
        <= 1_000_000_000_000_000 * 0x1_0000_0000_0000_0000) by (nonlinear_arith)
        requires
            -1_000_000_000_000_000 <= rate <= 1_000_000_000_000_000,
            0 <= dt_ns < 0x1_0000_0000_0000_0000,
    ;
    let way: i128 = rate * dt_ns as i128;
    let step: i128 = trunc_divide(way, 1_000_000_000_000_000);
    assert(UNIT * NANOS_PER_SECOND == 1_000_000_000_000_000);
    let sum: i128 = x as i128 + step;
    if sum < i64::MIN as i128 {
        i64::MIN
    } else if sum > i64::MAX as i128 {
        i64::MAX
    } else {
        sum as i64
    }
}

/// Moves a ball from `p` in `direction` at `speed` for `dt_ns`
/// nanoseconds.
pub fn advance(p: Vec2, direction: Vec2, speed: i64, dt_ns: u64) -> (q: Vec2)
    requires
        is_heading(direction),
        0 <= speed <= SPEED_MAX,
    ensures
        q == moved(p, direction, speed as int, dt_ns as int),
{
    Vec2 {
        x: advance_axis(p.x, direction.x, speed, dt_ns),
        y: advance_axis(p.y, direction.y, speed, dt_ns),
    }
}

/// A ball that takes no time, or has no direction, stays where it is.
pub proof fn lemma_moved_nowhere(p: Vec2, direction: Vec2, speed: int, dt_ns: int)
    requires
        dt_ns == 0 || direction.is_zero() || speed == 0,
    ensures
        moved(p, direction, speed, dt_ns) == p,
{
    assert(direction.x * speed * dt_ns == 0 && direction.y * speed * dt_ns == 0)
        by (nonlinear_arith)
        requires
            dt_ns == 0 || (direction.x == 0 && direction.y == 0) || speed == 0,
    ;
}

} // verus!
