//! Random places and directions.

use vstd::prelude::*;
use crate::field::Field;
use crate::vec2::{Vec2, UNIT};

verus! {

/// Draws a number with `rand::random`, from the generator that `rand`
/// keeps for the thread. Nothing is claimed of the number.
#[verifier::external_body]
fn random_u32() -> (draw: u32) {
    rand::random::<u32>()
}

/// The coordinate that a draw stands for on an axis of the given extent:
/// the draw, taken as a fraction of 2^32, times the extent, rounded down.
pub open spec fn scaled(draw: u32, extent: u32) -> int {
    draw * extent / 0x1_0000_0000
}

/// The point of the field that two draws stand for.
pub open spec fn placed(draw_x: u32, draw_y: u32, field: Field) -> Vec2 {
    Vec2 { x: scaled(draw_x, field.width) as i64, y: scaled(draw_y, field.height) as i64 }
}

/// The direction that two draws stand for: the direction of the vector
/// they make, which points up and to the right, or straight to the right
/// where both are zero.
pub open spec fn headed(draw_x: u32, draw_y: u32) -> Vec2 {
    if draw_x == 0 && draw_y == 0 {
        Vec2 { x: UNIT, y: 0 }
    } else {
        (Vec2 { x: draw_x as i64, y: draw_y as i64 }).normalized()
    }
}

/// A draw never leaves the axis.
pub proof fn lemma_scaled_in_range(draw: u32, extent: u32)
    ensures
        0 <= scaled(draw, extent),
        extent > 0 ==> scaled(draw, extent) < extent,
        extent == 0 ==> scaled(draw, extent) == 0,
{
    let product = draw * extent;
    assert(0 <= product && product < 0x1_0000_0000 * extent || extent == 0 && product == 0)
        by (nonlinear_arith)
        requires
            product == draw * extent,
            0 <= draw < 0x1_0000_0000,
            0 <= extent,
    ;
    vstd::arithmetic::div_mod::lemma_fundamental_div_mod(product, 0x1_0000_0000);
    vstd::arithmetic::div_mod::lemma_mod_bound(product, 0x1_0000_0000);
}

/// Turns a draw into a coordinate on an axis of the given extent.
pub fn scale_draw(draw: u32, extent: u32) -> (c: i64)
    ensures
        c == scaled(draw, extent),
        0 <= c,
        extent > 0 ==> c < extent,
        extent == 0 ==> c == 0,
{
    proof {
        lemma_scaled_in_range(draw, extent);
    }
    assert(draw * extent <= 0xffff_ffff * 0xffff_ffff) by (nonlinear_arith)
        requires
            0 <= draw <= 0xffff_ffff,
            0 <= extent <= 0xffff_ffff,
    ;
    let product: u64 = draw as u64 * extent as u64;
    (product / 0x1_0000_0000) as i64
}

/// Turns two draws into a point of the field.
pub fn place(draw_x: u32, draw_y: u32, field: Field) -> (p: Vec2)
    ensures
        p == placed(draw_x, draw_y, field),
        field.contains(p),
{
    Vec2 { x: scale_draw(draw_x, field.width), y: scale_draw(draw_y, field.height) }
}

/// Turns two draws into a direction.
pub fn head(draw_x: u32, draw_y: u32) -> (d: Vec2)
    ensures
        d == headed(draw_x, draw_y),
        d.is_unit(),
        0 <= d.x <= UNIT,
        0 <= d.y <= UNIT,
{
    if draw_x == 0 && draw_y == 0 {
        assert((Vec2 { x: UNIT, y: 0 }).is_unit());
        Vec2 { x: UNIT, y: 0 }
    } else {
        (Vec2 { x: draw_x as i64, y: draw_y as i64 }).normalize()
    }
}

/// Picks a point of the field at random.
pub fn random_position(field: Field) -> (p: Vec2)
    ensures
        field.contains(p),
{
    let draw_x: u32 = random_u32();
    let draw_y: u32 = random_u32();
    place(draw_x, draw_y, field)
}

/// Picks at random a direction that points up and to the right.
pub fn random_direction() -> (d: Vec2)
    ensures
        d.is_unit(),
        0 <= d.x <= UNIT,
        0 <= d.y <= UNIT,
{
    let draw_x: u32 = random_u32();
    let draw_y: u32 = random_u32();
    head(draw_x, draw_y)
}

} // verus!
