use vstd::prelude::*;

verus! {

/// An unsigned integer position or extent in voxel space.
#[derive(Clone, Copy, Debug, PartialEq, Eq, Structural)]
pub struct UVec3 {
    pub x: u32,
    pub y: u32,
    pub z: u32,
}

impl UVec3 {
    pub fn new(x: u32, y: u32, z: u32) -> (r: UVec3)
        ensures
            r == (UVec3 { x, y, z }),
    {
        UVec3 { x, y, z }
    }
}

/// Why an octree could not be built or checked.
#[derive(Clone, Copy, Debug, PartialEq, Eq, Structural)]
pub enum OctreeError {
    /// The buffer's records do not span exactly its length, which is given.
    StructuralMismatch(usize),
    /// The source is not a cube whose edge is a supported power of two.
    InvalidDepthOrExtent,
}

} // verus!
