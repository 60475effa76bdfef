use vstd::prelude::*;
use crate::vec2::Vec2;

verus! {

/// A star, which lies where it was put.
#[derive(Clone, Copy, Debug, PartialEq, Eq, Structural)]
pub struct Star {
    pub id: u64,
    pub position: Vec2,
}

} // verus!
