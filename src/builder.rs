//! The builder strategy: the capability that tells the octree constructor how
//! each region of the source is to be stored.
use vstd::prelude::*;

use crate::grid::{grid_cells, grid_extents, VoxelGrid};
use crate::types::{OctreeError, UVec3};

verus! {

/// The deepest tree this library builds; such a tree covers a cube of edge 256.
///
/// The constructor reserves the worst-case buffer before it starts (every node
/// a branch down to full leaves), and that reservation grows eightfold per
/// level: 17 million elements (34 MB) at depth 7, 273 MB at depth 8, and past a
/// 32-bit length at depth 10. Depth 7 keeps the up-front reservation modest on
/// every target; reading a buffer back (`VoxelOctree::verify`) has no such limit.
pub const MAX_TREE_DEPTH: u32 = 7;

/// The edge of a child of a node at `level`; a node at `level` has edge
/// `2 * span(level)`, so a leaf block (level 0) is 2x2x2 voxels.
pub open spec fn span(level: nat) -> nat
    decreases level,
{
    if level == 0 {
        1
    } else {
        2 * span((level - 1) as nat)
    }
}

/// The edge of a node at `level`.
pub open spec fn node_edge(level: nat) -> nat {
    2 * span(level)
}

pub proof fn lemma_span_bounds(level: nat)
    ensures
        span(level) >= 1,
        level <= MAX_TREE_DEPTH ==> span(level) <= 128,
{
    lemma_span_positive(level);
    if level <= MAX_TREE_DEPTH {
        lemma_span_monotonic(level, MAX_TREE_DEPTH as nat);
        reveal_with_fuel(span, 8);
    }
}

proof fn lemma_span_positive(level: nat)
    ensures
        span(level) >= 1,
    decreases level,
{
    if level > 0 {
        lemma_span_positive((level - 1) as nat);
    }
}

pub proof fn lemma_span_monotonic(a: nat, b: nat)
    requires
        a <= b,
    ensures
        span(a) <= span(b),
    decreases b,
{
    if a < b {
        lemma_span_monotonic(a, (b - 1) as nat);
        lemma_span_positive((b - 1) as nat);
    }
}

/// `span(level)` computed.
pub fn level_span(level: u32) -> (r: u32)
    requires
        level <= MAX_TREE_DEPTH,
    ensures
        r == span(level as nat),
{
    let mut r: u32 = 1;
    let mut i: u32 = 0;
    while i < level
        invariant
            i <= level <= MAX_TREE_DEPTH,
            r == span(i as nat),
        decreases level - i,
    {
        proof {
            lemma_span_bounds(i as nat);
        }
        r = r * 2;
        i = i + 1;
    }
    r
}

/// Offset of octant `o` along x, y and z in units of the child edge:
/// bit 0 selects x, bit 1 selects y, bit 2 selects z.
pub open spec fn octant_offset(o: u8) -> (int, int, int) {
    ((o % 2) as int, ((o / 2) % 2) as int, ((o / 4) % 2) as int)
}

/// Where a node of the octree under construction lies: the low corner of its
/// cube, its level, and the octant of its parent it fills.
#[derive(Clone, Copy, Debug, PartialEq, Eq, Structural)]
pub struct OctreeCreationPosition {
    pub position: UVec3,
    pub level: u32,
    pub octant: u8,
}

impl OctreeCreationPosition {
    /// The node's cube lies inside the cube of a tree of `depth`.
    pub open spec fn inside(self, depth: nat) -> bool {
        &&& depth <= MAX_TREE_DEPTH
        &&& self.level <= depth
        &&& self.position.x + node_edge(self.level as nat) <= node_edge(depth)
        &&& self.position.y + node_edge(self.level as nat) <= node_edge(depth)
        &&& self.position.z + node_edge(self.level as nat) <= node_edge(depth)
    }

    /// The position of child `o`.
    pub open spec fn spec_child(self, o: u8) -> OctreeCreationPosition {
        let s = span(self.level as nat);
        let (dx, dy, dz) = octant_offset(o);
        OctreeCreationPosition {
            position: UVec3 {
                x: (self.position.x + dx * s) as u32,
                y: (self.position.y + dy * s) as u32,
                z: (self.position.z + dz * s) as u32,
            },
            level: (self.level - 1) as u32,
            octant: o,
        }
    }

    /// The root of a tree of `depth`.
    pub open spec fn root(depth: u32) -> OctreeCreationPosition {
        OctreeCreationPosition { position: UVec3 { x: 0, y: 0, z: 0 }, level: depth, octant: 0 }
    }

    pub fn new(position: UVec3, level: u32, octant: u8) -> (r: OctreeCreationPosition)
        ensures
            r == (OctreeCreationPosition { position, level, octant }),
    {
        OctreeCreationPosition { position, level, octant }
    }

    pub fn position(&self) -> (r: UVec3)
        ensures
            r == self.position,
    {
        self.position
    }

    pub fn level(&self) -> (r: u32)
        ensures
            r == self.level,
    {
        self.level
    }

    pub fn octant(&self) -> (r: u8)
        ensures
            r == self.octant,
    {
        self.octant
    }

    /// The position of child `octant`, one level down.
    pub fn child_unchecked(&self, octant: u8) -> (r: OctreeCreationPosition)
        requires
            self.level > 0,
            octant < 8,
            self.inside(MAX_TREE_DEPTH as nat),
        ensures
            r == self.spec_child(octant),
    {
        let s = level_span(self.level);
        proof {
            lemma_span_bounds(self.level as nat);
            lemma_span_bounds(MAX_TREE_DEPTH as nat);
            lemma_span_monotonic(self.level as nat, MAX_TREE_DEPTH as nat);
        }
        let dx = (octant % 2) as u32;
        let dy = ((octant / 2) % 2) as u32;
        let dz = ((octant / 4) % 2) as u32;
        proof {
            lemma_offset_times_span(dx as int, s as int);
            lemma_offset_times_span(dy as int, s as int);
            lemma_offset_times_span(dz as int, s as int);
        }
        OctreeCreationPosition {
            position: UVec3 {
                x: self.position.x + dx * s,
                y: self.position.y + dy * s,
                z: self.position.z + dz * s,
            },
            level: self.level - 1,
            octant,
        }
    }
}

proof fn lemma_offset_times_span(d: int, s: int)
    requires
        0 <= d <= 1,
        s >= 0,
    ensures
        0 <= d * s <= s,
{
    assert(0 <= d * s <= s) by (nonlinear_arith)
        requires
            0 <= d <= 1,
            s >= 0,
    ;
}

pub proof fn lemma_child_inside(p: OctreeCreationPosition, depth: nat, o: u8)
    requires
        p.inside(depth),
        p.level > 0,
        o < 8,
    ensures
        p.spec_child(o).inside(depth),
{
    let s = span(p.level as nat);
    assert(span(p.level as nat) == 2 * span((p.level - 1) as nat));
    lemma_span_bounds(p.level as nat);
    lemma_span_bounds(depth);
    let (dx, dy, dz) = octant_offset(o);
    lemma_offset_times_span(dx, s as int);
    lemma_offset_times_span(dy, s as int);
    lemma_offset_times_span(dz, s as int);
}

/// How the constructor is to store a region above the leaf level.
pub enum OctreeBuilderResult<S> {
    /// Every voxel of the region holds this material: store it alone.
    Homogeneous(u16),
    /// Store a branch and classify each of the eight children.
    Sparse,
    /// Store nothing for this level and classify the children with this state.
    SamplingRequired(S),
}

/// The classifier the octree constructor consults; `S` is the state carried
/// from a node to its children.
pub trait OctreeBuilder<S> {
    /// The builder is ready to answer queries.
    spec fn well_formed(&self) -> bool;

    spec fn spec_tree_depth(&self) -> nat;

    spec fn spec_default_state(&self) -> S;

    spec fn spec_octant(&self, pos: OctreeCreationPosition, state: S) -> OctreeBuilderResult<S>;

    spec fn spec_block(&self, pos: OctreeCreationPosition, state: S) -> [u16; 8];

    /// The state the root is classified with.
    fn default_state(&self) -> (r: S)
        requires
            self.well_formed(),
        ensures
            r == self.spec_default_state(),
    ;

    /// The depth of the tree: its root is at this level. It is at most
    /// `MAX_TREE_DEPTH`, the deepest tree the constructor reserves a buffer for.
    fn get_tree_depth(&self) -> (r: u32)
        requires
            self.well_formed(),
        ensures
            r == self.spec_tree_depth(),
            r <= MAX_TREE_DEPTH,
    ;

    /// Classifies the region at `pos` (above the leaf level).
    fn get_octant(&self, pos: &OctreeCreationPosition, state: &S) -> (r: OctreeBuilderResult<S>)
        requires
            self.well_formed(),
            pos.level >= 1,
            pos.inside(self.spec_tree_depth()),
        ensures
            r == self.spec_octant(*pos, *state),
    ;

    /// The eight materials of the leaf block at `pos`, in octant order.
    fn get_block(&self, pos: &OctreeCreationPosition, state: &S) -> (r: [u16; 8])
        requires
            self.well_formed(),
            pos.level == 0,
            pos.inside(self.spec_tree_depth()),
        ensures
            r == self.spec_block(*pos, *state),
    ;
}


/// The material at offset `(i, j, k)` from the low corner of `pos`'s cube.
pub open spec fn cell_at(g: VoxelGrid, pos: OctreeCreationPosition, i: int, j: int, k: int) -> u16 {
    grid_cells(g)[(pos.position.x + i, pos.position.y + j, pos.position.z + k)]
}

/// Every voxel of `pos`'s cube holds the material at its low corner.
pub open spec fn region_uniform(g: VoxelGrid, pos: OctreeCreationPosition) -> bool {
    let e = node_edge(pos.level as nat) as int;
    forall|i: int, j: int, k: int|
        0 <= i < e && 0 <= j < e && 0 <= k < e ==> #[trigger] cell_at(g, pos, i, j, k) == cell_at(
            g,
            pos,
            0,
            0,
            0,
        )
}

/// The material of corner `o` of the leaf block at `pos`.
pub open spec fn block_cell(g: VoxelGrid, pos: OctreeCreationPosition, o: u8) -> u16 {
    let (dx, dy, dz) = octant_offset(o);
    cell_at(g, pos, dx, dy, dz)
}

/// The grid is the cube a tree of `depth` covers.
pub open spec fn grid_is_cube(g: VoxelGrid, depth: u32) -> bool {
    &&& depth <= MAX_TREE_DEPTH
    &&& grid_extents(g) == (
        node_edge(depth as nat) as int,
        node_edge(depth as nat) as int,
        node_edge(depth as nat) as int,
    )
}

/// A builder that reads a cubic grid whose edge is a power of two.
pub struct Array3DOctreeBuilder<'a> {
    pub array: &'a VoxelGrid,
    pub default_material: u16,
    pub tree_depth: u32,
}

impl<'a> Array3DOctreeBuilder<'a> {
    /// A builder over `array`, which must be a cube of edge 2, 4, ..., 256;
    /// any other shape gives `InvalidDepthOrExtent`.
    pub fn new(array: &'a VoxelGrid, default_material: u16) -> (r: Result<
        Array3DOctreeBuilder<'a>,
        OctreeError,
    >)
        ensures
            r is Ok <==> exists|d: nat|
                d <= MAX_TREE_DEPTH && #[trigger] node_edge(d) == grid_extents(*array).0
                    && grid_extents(*array).0 == grid_extents(*array).1 && grid_extents(*array).1
                    == grid_extents(*array).2,
            r matches Ok(b) ==> b.well_formed() && b.array == array && b.default_material
                == default_material,
            r matches Err(e) ==> e == OctreeError::InvalidDepthOrExtent,
    {
        let (ex, ey, ez) = array.extents();
        if ex != ey || ey != ez {
            return Err(OctreeError::InvalidDepthOrExtent);
        }
        let mut d: u32 = 0;
        while d <= MAX_TREE_DEPTH
            invariant
                d <= MAX_TREE_DEPTH + 1,
                ex == grid_extents(*array).0,
                ex == ey == ez,
                ey == grid_extents(*array).1,
                ez == grid_extents(*array).2,
                forall|c: nat| c < d ==> #[trigger] node_edge(c) != ex,
            decreases MAX_TREE_DEPTH + 1 - d,
        {
            proof {
                lemma_span_bounds(d as nat);
            }
            if 2 * level_span(d) as usize == ex {
                assert(node_edge(d as nat) == grid_extents(*array).0);
                return Ok(Array3DOctreeBuilder { array, default_material, tree_depth: d });
            }
            d = d + 1;
        }
        Err(OctreeError::InvalidDepthOrExtent)
    }
}

/// Whether every voxel of `pos`'s cube holds the same material.
fn region_is_uniform(grid: &VoxelGrid, depth: u32, pos: &OctreeCreationPosition) -> (r: bool)
    requires
        grid_is_cube(*grid, depth),
        pos.inside(depth as nat),
    ensures
        r == region_uniform(*grid, *pos),
{
    proof {
        lemma_span_bounds(pos.level as nat);
        lemma_span_bounds(depth as nat);
    }
    let e = 2 * level_span(pos.level);
    let (px, py, pz) = (pos.position.x, pos.position.y, pos.position.z);
    let m = grid.at(px, py, pz);
    assert(m == cell_at(*grid, *pos, 0, 0, 0));
    assert(px + e <= 256 && py + e <= 256 && pz + e <= 256);
    let mut k: u32 = 0;
    while k < e
        invariant
            grid_is_cube(*grid, depth),
            pos.inside(depth as nat),
            e == node_edge(pos.level as nat),
            e <= 256,
            k <= e,
            (px, py, pz) == (pos.position.x, pos.position.y, pos.position.z),
            px + e <= 256 && py + e <= 256 && pz + e <= 256,
            m == cell_at(*grid, *pos, 0, 0, 0),
            forall|i: int, j: int, kk: int|
                0 <= i < e && 0 <= j < e && 0 <= kk < k ==> #[trigger] cell_at(
                    *grid,
                    *pos,
                    i,
                    j,
                    kk,
                ) == m,
        decreases e - k,
    {
        let mut j: u32 = 0;
        while j < e
            invariant
                grid_is_cube(*grid, depth),
                pos.inside(depth as nat),
                e == node_edge(pos.level as nat),
                e <= 256,
                k < e,
                j <= e,
                (px, py, pz) == (pos.position.x, pos.position.y, pos.position.z),
                px + e <= 256 && py + e <= 256 && pz + e <= 256,
                m == cell_at(*grid, *pos, 0, 0, 0),
                forall|i: int, jj: int, kk: int|
                    0 <= i < e && 0 <= jj < e && 0 <= kk < e && (kk < k || (kk == k && jj
                        < j)) ==> #[trigger] cell_at(*grid, *pos, i, jj, kk) == m,
            decreases e - j,
        {
            let mut i: u32 = 0;
            while i < e
                invariant
                    grid_is_cube(*grid, depth),
                    pos.inside(depth as nat),
                    e == node_edge(pos.level as nat),
                    e <= 256,
                    k < e,
                    j < e,
                    i <= e,
                    (px, py, pz) == (pos.position.x, pos.position.y, pos.position.z),
                    px + e <= 256 && py + e <= 256 && pz + e <= 256,
                    m == cell_at(*grid, *pos, 0, 0, 0),
                    forall|ii: int, jj: int, kk: int|
                        0 <= ii < e && 0 <= jj < e && 0 <= kk < e && (kk < k || (kk == k && jj
                            < j) || (kk == k && jj == j && ii < i)) ==> #[trigger] cell_at(
                            *grid,
                            *pos,
                            ii,
                            jj,
                            kk,
                        ) == m,
                decreases e - i,
            {
                let c = grid.at(px + i, py + j, pz + k);
                if c != m {
                    assert(cell_at(*grid, *pos, i as int, j as int, k as int) != m);
                    return false;
                }
                i = i + 1;
            }
            j = j + 1;
        }
        k = k + 1;
    }
    true
}

impl<'a> OctreeBuilder<u16> for Array3DOctreeBuilder<'a> {
    open spec fn well_formed(&self) -> bool {
        grid_is_cube(*self.array, self.tree_depth)
    }

    open spec fn spec_tree_depth(&self) -> nat {
        self.tree_depth as nat
    }

    open spec fn spec_default_state(&self) -> u16 {
        self.default_material
    }

    open spec fn spec_octant(&self, pos: OctreeCreationPosition, state: u16) -> OctreeBuilderResult<
        u16,
    > {
        if region_uniform(*self.array, pos) {
            OctreeBuilderResult::Homogeneous(cell_at(*self.array, pos, 0, 0, 0))
        } else {
            OctreeBuilderResult::Sparse
        }
    }

    open spec fn spec_block(&self, pos: OctreeCreationPosition, state: u16) -> [u16; 8] {
        grid_block(*self.array, pos)
    }

    fn default_state(&self) -> (r: u16) {
        self.default_material
    }

    fn get_tree_depth(&self) -> (r: u32) {
        self.tree_depth
    }

    fn get_octant(&self, pos: &OctreeCreationPosition, state: &u16) -> (r: OctreeBuilderResult<u16>) {
        if region_is_uniform(self.array, self.tree_depth, pos) {
            proof {
                lemma_span_bounds(pos.level as nat);
            }
            OctreeBuilderResult::Homogeneous(
                self.array.at(pos.position.x, pos.position.y, pos.position.z),
            )
        } else {
            OctreeBuilderResult::Sparse
        }
    }

    fn get_block(&self, pos: &OctreeCreationPosition, state: &u16) -> (r: [u16; 8]) {
        read_block(self.array, self.tree_depth, pos)
    }
}

/// The eight materials of the leaf block at `pos`, in octant order.
pub open spec fn grid_block(g: VoxelGrid, pos: OctreeCreationPosition) -> [u16; 8] {
    [
        block_cell(g, pos, 0),
        block_cell(g, pos, 1),
        block_cell(g, pos, 2),
        block_cell(g, pos, 3),
        block_cell(g, pos, 4),
        block_cell(g, pos, 5),
        block_cell(g, pos, 6),
        block_cell(g, pos, 7),
    ]
}

/// Reads the 2x2x2 leaf block at `pos` in one go.
fn read_block(a: &VoxelGrid, depth: u32, pos: &OctreeCreationPosition) -> (r: [u16; 8])
    requires
        grid_is_cube(*a, depth),
        pos.level == 0,
        pos.inside(depth as nat),
    ensures
        r == grid_block(*a, *pos),
{
    let (x, y, z) = (pos.position.x, pos.position.y, pos.position.z);
    proof {
        lemma_span_bounds(depth as nat);
        assert(node_edge(0) == 2);
    }
    [
        a.at(x, y, z),
        a.at(x + 1, y, z),
        a.at(x, y + 1, z),
        a.at(x + 1, y + 1, z),
        a.at(x, y, z + 1),
        a.at(x + 1, y, z + 1),
        a.at(x, y + 1, z + 1),
        a.at(x + 1, y + 1, z + 1),
    ]
}

/// A builder that owns its grid and is told the tree's depth.
pub struct VoxelOctreeBuilder {
    pub default_material: u16,
    pub tree_depth: u32,
    pub voxel_data: VoxelGrid,
}

impl VoxelOctreeBuilder {
    /// A builder over `voxel_data`, which must be the cube of edge
    /// `2 ^ (tree_depth + 1)`; any other shape or a depth above the limit gives
    /// `InvalidDepthOrExtent`.
    pub fn new(default_material: u16, tree_depth: u32, voxel_data: VoxelGrid) -> (r: Result<
        VoxelOctreeBuilder,
        OctreeError,
    >)
        ensures
            r is Ok <==> grid_is_cube(voxel_data, tree_depth),
            r matches Ok(b) ==> b.voxel_data == voxel_data && b.tree_depth == tree_depth
                && b.default_material == default_material,
            r matches Err(e) ==> e == OctreeError::InvalidDepthOrExtent,
    {
        if tree_depth > MAX_TREE_DEPTH {
            return Err(OctreeError::InvalidDepthOrExtent);
        }
        proof {
            lemma_span_bounds(tree_depth as nat);
        }
        let edge = 2 * level_span(tree_depth) as usize;
        let (ex, ey, ez) = voxel_data.extents();
        if ex == edge && ey == edge && ez == edge {
            Ok(VoxelOctreeBuilder { default_material, tree_depth, voxel_data })
        } else {
            Err(OctreeError::InvalidDepthOrExtent)
        }
    }
}

impl OctreeBuilder<u16> for VoxelOctreeBuilder {
    open spec fn well_formed(&self) -> bool {
        grid_is_cube(self.voxel_data, self.tree_depth)
    }

    open spec fn spec_tree_depth(&self) -> nat {
        self.tree_depth as nat
    }

    open spec fn spec_default_state(&self) -> u16 {
        self.default_material
    }

    open spec fn spec_octant(&self, pos: OctreeCreationPosition, state: u16) -> OctreeBuilderResult<
        u16,
    > {
        if region_uniform(self.voxel_data, pos) {
            OctreeBuilderResult::Homogeneous(cell_at(self.voxel_data, pos, 0, 0, 0))
        } else {
            OctreeBuilderResult::Sparse
        }
    }

    open spec fn spec_block(&self, pos: OctreeCreationPosition, state: u16) -> [u16; 8] {
        grid_block(self.voxel_data, pos)
    }

    fn default_state(&self) -> (r: u16) {
        self.default_material
    }

    fn get_tree_depth(&self) -> (r: u32) {
        self.tree_depth
    }

    fn get_octant(&self, pos: &OctreeCreationPosition, state: &u16) -> (r: OctreeBuilderResult<u16>) {
        if region_is_uniform(&self.voxel_data, self.tree_depth, pos) {
            proof {
                lemma_span_bounds(pos.level as nat);
            }
            OctreeBuilderResult::Homogeneous(
                self.voxel_data.at(pos.position.x, pos.position.y, pos.position.z),
            )
        } else {
            OctreeBuilderResult::Sparse
        }
    }

    fn get_block(&self, pos: &OctreeCreationPosition, state: &u16) -> (r: [u16; 8]) {
        read_block(&self.voxel_data, self.tree_depth, pos)
    }
}

} // verus!
