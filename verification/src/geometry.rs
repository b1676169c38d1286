//! Points and displacements on the integer grid of the play area.

use vstd::prelude::*;

verus! {

/// A position or a displacement in whole world units.
#[derive(Clone, Copy, Debug, PartialEq, Eq, Structural)]
pub struct IVec2 {
    pub x: i32,
    pub y: i32,
}

impl IVec2 {
    /// The vector with the given coordinates.
    pub fn new(x: i32, y: i32) -> (v: IVec2)
        ensures
            v.x == x,
            v.y == y,
    {
        IVec2 { x, y }
    }

    /// The world origin, which is also the zero displacement.
    pub open spec fn origin() -> IVec2 {
        IVec2 { x: 0, y: 0 }
    }

    /// The world origin.
    pub fn zero() -> (v: IVec2)
        ensures
            v == IVec2::origin(),
    {
        IVec2 { x: 0, y: 0 }
    }
}

} // verus!
