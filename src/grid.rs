//! The dense voxel source: a cube of material ids held in a `multiarray` 3D array.
use vstd::prelude::*;

verus! {

/// A dense 3D array of material ids.
#[verifier::external_body]
pub struct VoxelGrid {
    array: multiarray::Array3D<u16>,
}

/// The material id held at each coordinate of a grid.
pub uninterp spec fn grid_cells(g: VoxelGrid) -> Map<(int, int, int), u16>;

/// The extents of a grid, one per dimension.
pub uninterp spec fn grid_extents(g: VoxelGrid) -> (int, int, int);

/// The coordinate lies inside the grid.
pub open spec fn grid_contains(g: VoxelGrid, x: int, y: int, z: int) -> bool {
    0 <= x < grid_extents(g).0 && 0 <= y < grid_extents(g).1 && 0 <= z < grid_extents(g).2
}

/// Largest extent a grid may have along one axis: the edge of the deepest tree
/// the octree builders take (`MAX_TREE_DEPTH`). It also keeps the product of
/// the extents, which `multiarray` computes in `isize`, far from overflow.
pub const MAX_GRID_EXTENT: usize = 256;

/// Relies on `MultiArray::new`: an array of the given extents with every element
/// set to `fill`.
#[verifier::external_body]
fn array_new(ex: usize, ey: usize, ez: usize, fill: u16) -> (r: VoxelGrid)
    requires
        ex <= MAX_GRID_EXTENT,
        ey <= MAX_GRID_EXTENT,
        ez <= MAX_GRID_EXTENT,
    ensures
        grid_extents(r) == (ex as int, ey as int, ez as int),
        forall|x: int, y: int, z: int|
            grid_contains(r, x, y, z) ==> #[trigger] grid_cells(r)[(x, y, z)] == fill,
{
    VoxelGrid { array: multiarray::Array3D::new([ex, ey, ez], fill) }
}

/// Relies on `MultiArray::extents`: the extent of each of the three dimensions.
#[verifier::external_body]
fn array_extents(g: &VoxelGrid) -> (r: (usize, usize, usize))
    ensures
        r.0 == grid_extents(*g).0,
        r.1 == grid_extents(*g).1,
        r.2 == grid_extents(*g).2,
{
    let e = g.array.extents();
    (e[0], e[1], e[2])
}

/// Relies on `MultiArray`'s `Index<[usize; 3]>`: the element at that coordinate
/// (it panics on a coordinate outside the extents).
#[verifier::external_body]
fn array_get(g: &VoxelGrid, x: usize, y: usize, z: usize) -> (r: u16)
    requires
        grid_contains(*g, x as int, y as int, z as int),
    ensures
        r == grid_cells(*g)[(x as int, y as int, z as int)],
{
    g.array[[x, y, z]]
}

/// Relies on `MultiArray`'s `IndexMut<[usize; 3]>`: only the element at that
/// coordinate changes (it panics on a coordinate outside the extents).
#[verifier::external_body]
fn array_set(g: &mut VoxelGrid, x: usize, y: usize, z: usize, material: u16)
    requires
        grid_contains(*old(g), x as int, y as int, z as int),
    ensures
        grid_extents(*final(g)) == grid_extents(*old(g)),
        forall|i: int, j: int, k: int|
            grid_contains(*old(g), i, j, k) ==> #[trigger] grid_cells(*final(g))[(i, j, k)] == if (i, j, k)
                == (x as int, y as int, z as int) {
                material
            } else {
                grid_cells(*old(g))[(i, j, k)]
            },
{
    g.array[[x, y, z]] = material;
}

impl VoxelGrid {
    /// A grid of the given extents filled with one material.
    pub fn new(ex: usize, ey: usize, ez: usize, fill: u16) -> (r: VoxelGrid)
        requires
            ex <= MAX_GRID_EXTENT,
            ey <= MAX_GRID_EXTENT,
            ez <= MAX_GRID_EXTENT,
        ensures
            grid_extents(r) == (ex as int, ey as int, ez as int),
            forall|x: int, y: int, z: int|
                grid_contains(r, x, y, z) ==> #[trigger] grid_cells(r)[(x, y, z)] == fill,
    {
        array_new(ex, ey, ez, fill)
    }

    pub fn extents(&self) -> (r: (usize, usize, usize))
        ensures
            r.0 == grid_extents(*self).0,
            r.1 == grid_extents(*self).1,
            r.2 == grid_extents(*self).2,
    {
        array_extents(self)
    }

    /// The material at `(x, y, z)`, or `None` outside the grid.
    pub fn get(&self, x: usize, y: usize, z: usize) -> (r: Option<u16>)
        ensures
            grid_contains(*self, x as int, y as int, z as int) ==> r == Some(
                grid_cells(*self)[(x as int, y as int, z as int)],
            ),
            !grid_contains(*self, x as int, y as int, z as int) ==> r.is_none(),
    {
        let (ex, ey, ez) = array_extents(self);
        if x < ex && y < ey && z < ez {
            Some(array_get(self, x, y, z))
        } else {
            None
        }
    }

    /// Sets the material at `(x, y, z)`; returns false, changing nothing, outside
    /// the grid.
    pub fn set(&mut self, x: usize, y: usize, z: usize, material: u16) -> (r: bool)
        ensures
            r == grid_contains(*old(self), x as int, y as int, z as int),
            grid_extents(*final(self)) == grid_extents(*old(self)),
            forall|i: int, j: int, k: int|
                grid_contains(*old(self), i, j, k) ==> #[trigger] grid_cells(*final(self))[(i, j, k)]
                    == if r && (i, j, k) == (x as int, y as int, z as int) {
                    material
                } else {
                    grid_cells(*old(self))[(i, j, k)]
                },
    {
        let (ex, ey, ez) = array_extents(self);
        if x < ex && y < ey && z < ez {
            array_set(self, x, y, z, material);
            true
        } else {
            false
        }
    }

    /// The material at `(x, y, z)`, which must lie inside the grid.
    pub(crate) fn at(&self, x: u32, y: u32, z: u32) -> (r: u16)
        requires
            grid_contains(*self, x as int, y as int, z as int),
        ensures
            r == grid_cells(*self)[(x as int, y as int, z as int)],
    {
        array_get(self, x as usize, y as usize, z as usize)
    }
}

} // verus!
