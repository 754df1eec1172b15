//! 2D fixed-point vectors, the coordinates the spatial index works in.

use vstd::prelude::*;

verus! {

use crate::fx::{COORD_LIMIT, within};

/// A point or displacement on the horizontal plane, in fixed-point
/// coordinates (see [`crate::fx`]).
#[derive(Clone, Copy, PartialEq, Eq, Structural, Debug)]
pub struct Vec2Fx {
    pub x: i64,
    pub y: i64,
}

impl Vec2Fx {
    /// Both components lie within the coordinate range the core admits.
    pub open spec fn wf(self) -> bool {
        within(self.x as int, COORD_LIMIT as int) && within(self.y as int, COORD_LIMIT as int)
    }

    pub fn new(x: i64, y: i64) -> (r: Vec2Fx)
        ensures
            r.x == x,
            r.y == y,
    {
        Vec2Fx { x, y }
    }

    pub fn zero() -> (r: Vec2Fx)
        ensures
            r.x == 0,
            r.y == 0,
    {
        Vec2Fx { x: 0, y: 0 }
    }
}

} // verus!
