//! Unsigned 3-component vectors used for voxel coordinates, brick
//! coordinates and buffer strides.

use vstd::prelude::*;

verus! {

/// A coordinate or extent in index space. The origin is always `(0, 0, 0)`.
#[derive(Clone, Copy, PartialEq, Eq, Structural, Debug)]
pub struct UVec3 {
    pub x: u32,
    pub y: u32,
    pub z: u32,
}

impl UVec3 {
    /// Number of cells in a box of this extent.
    pub open spec fn volume(self) -> int {
        self.x * self.y * self.z
    }

    pub fn new(x: u32, y: u32, z: u32) -> (v: UVec3)
        ensures
            v == (UVec3 { x, y, z }),
    {
        UVec3 { x, y, z }
    }

    pub fn splat(n: u32) -> (v: UVec3)
        ensures
            v == (UVec3 { x: n, y: n, z: n }),
    {
        UVec3 { x: n, y: n, z: n }
    }
}

} // verus!
