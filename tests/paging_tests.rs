use rusty_voxel_engine::bbox::generate_bounding_box_mask_lookup_table;
use rusty_voxel_engine::builder::VoxelOctreeBuilder;
use rusty_voxel_engine::grid::VoxelGrid;
use rusty_voxel_engine::mesher::{mesh_pages, pack_attributes, OctreeRenderAttribute, ATTRIBUTE_BYTES, UP};
use rusty_voxel_engine::octree::{VoxelOctree, MARKER_HOMOGENEOUS};
use rusty_voxel_engine::page::page_map_from_grid;
use rusty_voxel_engine::types::{OctreeError, UVec3};

#[test]
fn grid_splits_into_pages() {
    let mut grid = VoxelGrid::new(16, 16, 16, 0);
    assert!(grid.set(0, 0, 0, 4));
    assert!(grid.set(9, 3, 2, 5));
    assert!(grid.set(10, 3, 2, 6));
    assert!(grid.set(15, 15, 15, 7));
    let map = page_map_from_grid(&grid, 0).expect("cubic grid");
    assert_eq!(map.size, 2);
    let first = map.get(UVec3::new(0, 0, 0));
    assert_eq!(first.voxels[0], 1);
    assert_eq!(first.material, 4);
    let second = map.get(UVec3::new(1, 0, 0));
    assert_eq!(second.voxels[2 * 8 + 3], 0b0000_0110);
    assert_eq!(second.material, 5);
    let last = map.get(UVec3::new(1, 1, 1));
    assert_eq!(last.voxels[63], 0x80);
    assert_eq!(last.material, 7);
    let blank = map.get(UVec3::new(0, 1, 0));
    assert_eq!(blank.voxels, [0u8; 64]);
    assert_eq!(blank.material, 0);
}

#[test]
fn grid_of_wrong_shape_is_not_paged() {
    assert_eq!(page_map_from_grid(&VoxelGrid::new(4, 4, 4, 0), 0).err(), Some(OctreeError::InvalidDepthOrExtent));
    assert_eq!(page_map_from_grid(&VoxelGrid::new(8, 8, 16, 0), 0).err(), Some(OctreeError::InvalidDepthOrExtent));
    assert_eq!(page_map_from_grid(&VoxelGrid::new(24, 24, 24, 0), 0).err(), Some(OctreeError::InvalidDepthOrExtent));
    assert!(page_map_from_grid(&VoxelGrid::new(8, 8, 8, 0), 0).is_ok());
    assert_eq!(page_map_from_grid(&VoxelGrid::new(128, 128, 128, 0), 0).map(|m| m.size), Ok(16));
    assert_eq!(page_map_from_grid(&VoxelGrid::new(256, 256, 256, 0), 0).err(), Some(OctreeError::InvalidDepthOrExtent));
}

#[test]
fn meshing_a_grid_with_one_solid_page() {
    let mut grid = VoxelGrid::new(16, 16, 16, 0);
    for x in 0..8 {
        for y in 0..8 {
            for z in 0..8 {
                assert!(grid.set(x, y, z, 3));
            }
        }
    }
    let map = page_map_from_grid(&grid, 0).expect("cubic grid");
    let table = generate_bounding_box_mask_lookup_table();
    let (quads, materials) = mesh_pages(&map, &table);
    assert_eq!(quads.len(), 6);
    assert_eq!(materials, vec![3]);
    let mut faces: Vec<u8> = quads.iter().map(|q| q.flags).collect();
    faces.sort();
    assert_eq!(faces, vec![0, 1, 2, 3, 4, 5]);
}

#[test]
fn owning_builder_checks_its_depth() {
    let grid = VoxelGrid::new(8, 8, 8, 2);
    let builder = VoxelOctreeBuilder::new(5, 2, grid).expect("depth two covers edge eight");
    let octree = VoxelOctree::from_builder(&builder);
    assert_eq!(octree.buffer().clone(), vec![MARKER_HOMOGENEOUS, 2]);
    assert_eq!(octree.verify(), Ok(()));
    let wrong = VoxelOctreeBuilder::new(5, 1, VoxelGrid::new(8, 8, 8, 2));
    assert_eq!(wrong.err(), Some(OctreeError::InvalidDepthOrExtent));
    let too_deep = VoxelOctreeBuilder::new(5, 8, VoxelGrid::new(2, 2, 2, 2));
    assert_eq!(too_deep.err(), Some(OctreeError::InvalidDepthOrExtent));
}

#[test]
fn owning_builder_matches_borrowing_builder() {
    let mut grid = VoxelGrid::new(8, 8, 8, 0);
    assert!(grid.set(3, 4, 5, 9));
    assert!(grid.set(7, 0, 1, 8));
    let borrowed = rusty_voxel_engine::builder::Array3DOctreeBuilder::new(&grid, 0).expect("cube");
    let a = VoxelOctree::from_builder(&borrowed).into_buffer();
    let mut owned_grid = VoxelGrid::new(8, 8, 8, 0);
    assert!(owned_grid.set(3, 4, 5, 9));
    assert!(owned_grid.set(7, 0, 1, 8));
    let owned = VoxelOctreeBuilder::new(0, 2, owned_grid).expect("cube");
    let b = VoxelOctree::from_builder(&owned).into_buffer();
    assert_eq!(a, b);
}

#[test]
fn attribute_wire_format() {
    let mut voxels = [0u8; 64];
    voxels[0] = 0xaa;
    voxels[63] = 0x55;
    let a = OctreeRenderAttribute::new(1, 2, 3, 4, 5, UP, &voxels, 0x0403_0201, 0x0807_0605_0403_0201);
    let mut out = Vec::new();
    a.to_bytes(&mut out);
    assert_eq!(out.len(), ATTRIBUTE_BYTES);
    assert_eq!(&out[0..5], &[1, 2, 3, 3, 4 * 8 + 3]);
    assert_eq!(out[5], 0xaa);
    assert_eq!(out[68], 0x55);
    assert_eq!(&out[69..73], &[1, 2, 3, 4]);
    assert_eq!(&out[73..81], &[1, 2, 3, 4, 5, 6, 7, 8]);
    assert_eq!(&out[81..84], &[0, 0, 0]);
    let packed = pack_attributes(&vec![a, a]);
    assert_eq!(packed.len(), 2 * ATTRIBUTE_BYTES);
    assert_eq!(&packed[84..], &out[..]);
}
