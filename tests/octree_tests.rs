use rusty_voxel_engine::builder::{level_span, Array3DOctreeBuilder, OctreeCreationPosition};
use rusty_voxel_engine::grid::VoxelGrid;
use rusty_voxel_engine::octree::{packed_capacity, VoxelOctree, MARKER_HOMOGENEOUS, MARKER_SPARSE};
use rusty_voxel_engine::types::{OctreeError, UVec3};

fn build(grid: &VoxelGrid) -> VoxelOctree {
    let builder = Array3DOctreeBuilder::new(grid, 0).expect("cubic grid");
    VoxelOctree::from_builder(&builder)
}

#[test]
fn uniform_source_packs_to_single_record() {
    for depth in 0u32..5 {
        let edge = 2usize << depth;
        let grid = VoxelGrid::new(edge, edge, edge, 7);
        let octree = build(&grid);
        assert_eq!(octree.tree_depth(), depth);
        assert_eq!(octree.buffer().clone(), vec![MARKER_HOMOGENEOUS, 7]);
        assert_eq!(octree.verify(), Ok(()));
    }
}

#[test]
fn single_voxel_depth_one_layout() {
    let mut grid = VoxelGrid::new(4, 4, 4, 0);
    assert!(grid.set(0, 0, 0, 5));
    let octree = build(&grid);
    let buf = octree.buffer().clone();
    assert_eq!(buf.len(), 1 + 8 * 8);
    assert_eq!(buf[0], MARKER_SPARSE);
    assert_eq!(&buf[1..9], &[5, 0, 0, 0, 0, 0, 0, 0]);
    assert!(buf[9..].iter().all(|&m| m == 0));
    assert_eq!(octree.verify(), Ok(()));
}

#[test]
fn single_voxel_depth_two_layout() {
    let mut grid = VoxelGrid::new(8, 8, 8, 0);
    assert!(grid.set(0, 0, 0, 9));
    let octree = build(&grid);
    let buf = octree.buffer().clone();
    assert_eq!(buf.len(), 1 + (1 + 64) + 7 * 2);
    assert_eq!(buf[0], MARKER_SPARSE);
    assert_eq!(buf[1], MARKER_SPARSE);
    assert_eq!(buf[2], 9);
    for child in 1..8 {
        let at = 66 + (child - 1) * 2;
        assert_eq!(&buf[at..at + 2], &[MARKER_HOMOGENEOUS, 0]);
    }
    assert_eq!(octree.verify(), Ok(()));
}

#[test]
fn leaf_block_follows_octant_order() {
    let mut grid = VoxelGrid::new(2, 2, 2, 0);
    // octant code: bit 0 is x, bit 1 is y, bit 2 is z
    assert!(grid.set(1, 0, 0, 1));
    assert!(grid.set(0, 1, 0, 2));
    assert!(grid.set(0, 0, 1, 4));
    assert!(grid.set(1, 1, 1, 7));
    let octree = build(&grid);
    assert_eq!(octree.buffer().clone(), vec![0, 1, 2, 0, 4, 0, 0, 7]);
    assert_eq!(octree.verify(), Ok(()));
}

#[test]
fn built_octree_verifies_and_truncation_is_caught() {
    let mut grid = VoxelGrid::new(16, 16, 16, 3);
    for i in 0..16usize {
        assert!(grid.set(i, (i * 7) % 16, (i * 5) % 16, (i % 4) as u16));
    }
    let octree = build(&grid);
    assert_eq!(octree.verify(), Ok(()));
    let mut truncated = octree.buffer().clone();
    truncated.pop();
    let n = truncated.len();
    let cut = VoxelOctree::new(octree.tree_depth(), truncated);
    assert_eq!(cut.verify(), Err(OctreeError::StructuralMismatch(n)));
}

#[test]
fn truncated_uniform_octree_reports_count() {
    for depth in 0u32..3 {
        let edge = 2usize << depth;
        let grid = VoxelGrid::new(edge, edge, edge, 2);
        let octree = build(&grid);
        let mut buf = octree.into_buffer();
        buf.pop();
        let cut = VoxelOctree::new(depth, buf);
        assert_eq!(cut.verify(), Err(OctreeError::StructuralMismatch(1)));
    }
}

#[test]
fn verify_rejects_extra_element_and_bad_markers() {
    let extra = VoxelOctree::new(1, vec![MARKER_HOMOGENEOUS, 4, 4]);
    assert_eq!(extra.verify(), Err(OctreeError::StructuralMismatch(3)));
    let bad_marker = VoxelOctree::new(1, vec![7, 4]);
    assert_eq!(bad_marker.verify(), Err(OctreeError::StructuralMismatch(2)));
    let short_leaf = VoxelOctree::new(0, vec![1, 2, 3, 4, 5, 6, 7]);
    assert_eq!(short_leaf.verify(), Err(OctreeError::StructuralMismatch(7)));
    let empty = VoxelOctree::new(0, vec![]);
    assert_eq!(empty.verify(), Err(OctreeError::StructuralMismatch(0)));
    let deep = VoxelOctree::new(20, vec![MARKER_HOMOGENEOUS, 1]);
    assert_eq!(deep.verify(), Ok(()));
    let mut deep_branch = vec![MARKER_SPARSE];
    for _ in 0..8 {
        deep_branch.extend_from_slice(&[MARKER_HOMOGENEOUS, 2]);
    }
    assert_eq!(VoxelOctree::new(9, deep_branch).verify(), Ok(()));
    let uniform_leaf = VoxelOctree::new(0, vec![MARKER_HOMOGENEOUS, 6]);
    assert_eq!(uniform_leaf.verify(), Ok(()));
}

#[test]
fn pass_through_level_cannot_be_read_back() {
    // a level that wrote nothing leaves eight raw leaves with no marker
    let octree = VoxelOctree::new(1, vec![3u16; 64]);
    assert_eq!(octree.verify(), Err(OctreeError::StructuralMismatch(64)));
}

#[test]
fn builder_rejects_bad_extents() {
    let not_cube = VoxelGrid::new(4, 4, 2, 0);
    assert_eq!(Array3DOctreeBuilder::new(&not_cube, 0).err(), Some(OctreeError::InvalidDepthOrExtent));
    let not_power = VoxelGrid::new(6, 6, 6, 0);
    assert_eq!(Array3DOctreeBuilder::new(&not_power, 0).err(), Some(OctreeError::InvalidDepthOrExtent));
    let single = VoxelGrid::new(1, 1, 1, 0);
    assert_eq!(Array3DOctreeBuilder::new(&single, 0).err(), Some(OctreeError::InvalidDepthOrExtent));
    let largest = VoxelGrid::new(256, 256, 256, 0);
    let b = Array3DOctreeBuilder::new(&largest, 1).expect("largest cube");
    assert_eq!(b.tree_depth, 7);
    assert_eq!(b.default_material, 1);
}

#[test]
fn capacity_matches_worst_case_record() {
    assert_eq!(packed_capacity(0), 8);
    assert_eq!(packed_capacity(1), 65);
    assert_eq!(packed_capacity(2), 521);
    assert_eq!(packed_capacity(7), 17076809);
}

#[test]
fn child_positions_follow_octant_bits() {
    let root = OctreeCreationPosition::new(UVec3::new(0, 0, 0), 2, 0);
    let c = root.child_unchecked(5);
    assert_eq!(c.position(), UVec3::new(4, 0, 4));
    assert_eq!(c.level(), 1);
    assert_eq!(c.octant(), 5);
    let g = c.child_unchecked(2);
    assert_eq!(g.position(), UVec3::new(4, 2, 4));
    assert_eq!(g.level(), 0);
    assert_eq!(level_span(0), 1);
    assert_eq!(level_span(3), 8);
}

#[test]
fn grid_reads_and_bounds() {
    let mut grid = VoxelGrid::new(2, 3, 4, 6);
    assert_eq!(grid.extents(), (2, 3, 4));
    assert_eq!(grid.get(1, 2, 3), Some(6));
    assert_eq!(grid.get(2, 0, 0), None);
    assert!(grid.set(1, 2, 3, 8));
    assert_eq!(grid.get(1, 2, 3), Some(8));
    assert!(!grid.set(0, 3, 0, 8));
}
