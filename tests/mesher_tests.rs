use rusty_voxel_engine::bbox::generate_bounding_box_mask_lookup_table;
use rusty_voxel_engine::face::encode_size;
use rusty_voxel_engine::mesher::{
    exposed_faces, mesh_pages, scan_branch_for_transparency, OctreeRenderAttribute, OctreeRenderBox,
    BACK, DOWN, FRONT, LEFT, NONE, RIGHT, UP,
};
use rusty_voxel_engine::page::{summarize_page, Array3D2P, OctreeBoxEntry};
use rusty_voxel_engine::types::UVec3;

fn empty() -> OctreeBoxEntry {
    OctreeBoxEntry { voxels: [0u8; 64], material: 0 }
}

fn solid(material: u16) -> OctreeBoxEntry {
    OctreeBoxEntry { voxels: [0xffu8; 64], material }
}

fn origin() -> UVec3 {
    UVec3::new(0, 0, 0)
}

#[test]
fn single_corner_voxel_gives_three_unit_quads() {
    let mut voxels = [0u8; 64];
    voxels[0] = 1;
    let map = Array3D2P::new(OctreeBoxEntry { voxels, material: 3 }, 1);
    let table = generate_bounding_box_mask_lookup_table();
    let rb = OctreeRenderBox::create(origin(), LEFT | DOWN | BACK, NONE, &map, &table).expect("drawn");
    let mut quads = Vec::new();
    let mut materials = Vec::new();
    let (pointer, mask) = rb.add_materials_to_texture(&mut materials);
    rb.add_faces_to_buffer(&mut quads, pointer, mask);
    assert_eq!(quads.len(), 3);
    let flags: Vec<u8> = quads.iter().map(|q| q.flags).collect();
    assert_eq!(flags, vec![0, 2, 4]);
    for q in &quads {
        assert_eq!((q.x, q.y, q.z), (0, 0, 0));
        assert_eq!(q.size, encode_size(1, 1));
        assert_eq!(q.material_pointer, 0);
        assert_eq!(q.material_mask, 1);
    }
    assert_eq!(materials, vec![3]);
}

#[test]
fn single_corner_voxel_with_all_faces_requested() {
    let mut voxels = [0u8; 64];
    voxels[0] = 1;
    let map = Array3D2P::new(OctreeBoxEntry { voxels, material: 3 }, 1);
    let table = generate_bounding_box_mask_lookup_table();
    let (quads, materials) = mesh_pages(&map, &table);
    assert_eq!(quads.len(), 6);
    let far: Vec<(u8, u8, u8, u8)> = quads.iter().filter(|q| q.flags % 2 == 1).map(|q| (q.flags, q.x, q.y, q.z)).collect();
    assert_eq!(far, vec![(1, 1, 0, 0), (3, 0, 1, 0), (5, 0, 0, 1)]);
    assert_eq!(materials, vec![3]);
}

#[test]
fn solid_page_next_to_empty_page_shows_one_shared_quad() {
    let mut map = Array3D2P::new(empty(), 2);
    map.set(origin(), solid(5));
    let table = generate_bounding_box_mask_lookup_table();
    let (quads, materials) = mesh_pages(&map, &table);
    assert_eq!(quads.len(), 6);
    let shared: Vec<&OctreeRenderAttribute> = quads.iter().filter(|q| q.flags == 1).collect();
    assert_eq!(shared.len(), 1);
    assert_eq!((shared[0].x, shared[0].y, shared[0].z), (8, 0, 0));
    assert_eq!(shared[0].size, encode_size(8, 8));
    assert_eq!(shared[0].material_mask, u64::MAX);
    assert_eq!(materials, vec![5]);
}

#[test]
fn shared_face_against_partial_neighbour_is_clipped() {
    let mut map = Array3D2P::new(empty(), 2);
    map.set(origin(), solid(5));
    // neighbour across +x: solid but for the octant with low x, high y, high z
    let mut voxels = [0xffu8; 64];
    for z in 4..8 {
        for y in 4..8 {
            voxels[z * 8 + y] = 0xf0;
        }
    }
    map.set(UVec3::new(1, 0, 0), OctreeBoxEntry { voxels, material: 6 });
    assert_eq!(exposed_faces(&map, origin()), (LEFT | RIGHT | DOWN | UP | BACK | FRONT, RIGHT));
    let table = generate_bounding_box_mask_lookup_table();
    let (quads, materials) = mesh_pages(&map, &table);
    let shared: Vec<&OctreeRenderAttribute> = quads
        .iter()
        .filter(|q| (q.flags == 1 && q.material_pointer == 0) || (q.flags == 0 && q.material_pointer == 1))
        .collect();
    assert_eq!(shared.len(), 1);
    assert_eq!((shared[0].flags, shared[0].x, shared[0].y, shared[0].z), (1, 8, 4, 4));
    assert_eq!(shared[0].size, encode_size(4, 4));
    assert_eq!(materials, vec![5, 6]);
}

#[test]
fn shared_face_between_full_pages_is_hidden() {
    let mut map = Array3D2P::new(empty(), 2);
    map.set(origin(), solid(5));
    map.set(UVec3::new(1, 0, 0), solid(5));
    let table = generate_bounding_box_mask_lookup_table();
    let (quads, materials) = mesh_pages(&map, &table);
    assert_eq!(quads.len(), 10);
    let inner: Vec<&OctreeRenderAttribute> = quads.iter().filter(|q| q.flags == 1 || q.flags == 0).collect();
    assert_eq!(inner.len(), 2);
    assert_eq!(materials, vec![5]);
    assert!(quads.iter().all(|q| q.material_pointer == 0));
}

#[test]
fn empty_map_and_no_requested_faces_give_nothing() {
    let map = Array3D2P::new(empty(), 2);
    let table = generate_bounding_box_mask_lookup_table();
    let (quads, materials) = mesh_pages(&map, &table);
    assert!(quads.is_empty());
    assert!(materials.is_empty());
    let full = Array3D2P::new(solid(1), 1);
    assert!(OctreeRenderBox::create(origin(), NONE, NONE, &full, &table).is_none());
}

#[test]
fn interior_box_faces_follow_the_box() {
    // a 2x2x2 block of voxels at (2..4, 3..5, 1..3)
    let mut voxels = [0u8; 64];
    for z in 1..3 {
        for y in 3..5 {
            voxels[z * 8 + y] = 0b0000_1100;
        }
    }
    let map = Array3D2P::new(OctreeBoxEntry { voxels, material: 2 }, 1);
    let table = generate_bounding_box_mask_lookup_table();
    let rb = OctreeRenderBox::create(origin(), RIGHT | UP, NONE, &map, &table).expect("drawn");
    assert_eq!((rb.aabb.x, rb.aabb.y, rb.aabb.z, rb.aabb.u, rb.aabb.v, rb.aabb.w), (2, 3, 1, 4, 5, 3));
    let mut quads = Vec::new();
    rb.add_faces_to_buffer(&mut quads, 7, 9);
    assert_eq!(quads.len(), 2);
    assert_eq!((quads[0].flags, quads[0].x, quads[0].y, quads[0].z), (1, 4, 3, 1));
    assert_eq!((quads[1].flags, quads[1].x, quads[1].y, quads[1].z), (3, 2, 5, 1));
    assert_eq!(quads[0].size, encode_size(2, 2));
    assert_eq!((quads[0].material_pointer, quads[0].material_mask), (7, 9));
}

#[test]
fn material_table_is_deduplicated() {
    let mut map = Array3D2P::new(empty(), 2);
    map.set(UVec3::new(0, 0, 0), solid(4));
    map.set(UVec3::new(1, 1, 1), solid(8));
    map.set(UVec3::new(0, 1, 1), solid(4));
    let table = generate_bounding_box_mask_lookup_table();
    let (quads, materials) = mesh_pages(&map, &table);
    assert_eq!(materials, vec![4, 8]);
    assert!(quads.iter().all(|q| q.material_pointer < 2));
    assert!(quads.iter().any(|q| q.material_pointer == 1));
}

#[test]
fn page_summary_masks() {
    let full = summarize_page(&[0xffu8; 64]);
    assert_eq!((full.occupied, full.full, full.xmask, full.ymask, full.zmask), (0xff, 0xff, 0xff, 0xff, 0xff));
    assert_eq!(full.rows, u64::MAX);
    let mut voxels = [0u8; 64];
    voxels[63] = 0x80;
    let corner = summarize_page(&voxels);
    assert_eq!((corner.occupied, corner.full), (0x80, 0));
    assert_eq!((corner.xmask, corner.ymask, corner.zmask), (0x80, 0x80, 0x80));
    assert_eq!(corner.rows, 1u64 << 63);
    let nothing = summarize_page(&[0u8; 64]);
    assert_eq!((nothing.occupied, nothing.full, nothing.rows), (0, 0, 0));
}

#[test]
fn openings_of_a_face() {
    let whole = (0u8, 0u8, 8u8, 8u8);
    let spans = |v: Vec<rusty_voxel_engine::face::FaceExtent>| -> Vec<(u8, u8, u8, u8)> {
        v.iter().map(|e| (e.x, e.y, e.x + e.width(), e.y + e.height())).collect()
    };
    assert_eq!(spans(scan_branch_for_transparency(0xff, 0, whole)), vec![]);
    assert_eq!(spans(scan_branch_for_transparency(0x00, 5, whole)), vec![(0, 0, 8, 8)]);
    assert_eq!(spans(scan_branch_for_transparency(0xff & !(1 << 6), 0, whole)), vec![(4, 4, 8, 8)]);
    assert_eq!(spans(scan_branch_for_transparency(0xff & !(1 << 1), 4, whole)), vec![(4, 0, 8, 4)]);
    // quarters 0 and 1 of face 0 (octants 0 and 2) side by side give one extent
    assert_eq!(spans(scan_branch_for_transparency(0xff & !0b0000_0101, 0, whole)), vec![(0, 0, 8, 4)]);
    // quarters 0 and 2 of face 0 (octants 0 and 4) one above the other give one extent
    assert_eq!(spans(scan_branch_for_transparency(0xff & !0b0001_0001, 0, whole)), vec![(0, 0, 4, 8)]);
    // three open quarters give an L of two extents
    assert_eq!(
        spans(scan_branch_for_transparency(0xff & !0b0101_0001, 0, whole)),
        vec![(0, 0, 4, 4), (0, 4, 8, 8)]
    );
    // diagonal quarters stay apart
    assert_eq!(
        spans(scan_branch_for_transparency(0b0001_0100, 0, whole)),
        vec![(0, 0, 4, 4), (4, 4, 8, 8)]
    );
    // a constraint inside the openings comes back as itself
    assert_eq!(spans(scan_branch_for_transparency(0xff & !0b0000_0101, 0, (1, 1, 7, 3))), vec![(1, 1, 7, 3)]);
    // a constraint that meets only full quarters gives nothing
    assert_eq!(spans(scan_branch_for_transparency(0b0001_0100, 0, (4, 0, 8, 4))), vec![]);
}

#[test]
fn render_attribute_packs_direction_and_size() {
    let voxels = [3u8; 64];
    let a = OctreeRenderAttribute::new(1, 2, 3, 2, 3, UP, &voxels, 4, 5);
    assert_eq!((a.x, a.y, a.z, a.flags, a.size), (1, 2, 3, 3, 17));
    assert_eq!((a.material_pointer, a.material_mask), (4, 5));
    let b = OctreeRenderAttribute::new_with_position(UVec3::new(7, 8, 0), 8, 1, FRONT, &voxels, 0, 0);
    assert_eq!((b.x, b.y, b.z, b.flags, b.size), (7, 8, 0, 5, 7));
}

#[test]
fn page_map_indexing() {
    let mut map = Array3D2P::new(0u16, 4);
    assert_eq!(map.size, 4);
    assert_eq!(map.data.len(), 64);
    map.set(UVec3::new(1, 2, 3), 9);
    assert_eq!(*map.get(UVec3::new(1, 2, 3)), 9);
    assert_eq!(map.data[(3 * 4 + 2) * 4 + 1], 9);
    assert_eq!(*map.get(UVec3::new(3, 2, 1)), 0);
}

/// A neighbour across +x whose octants 2 and 4 are full and 0 and 6 empty: on
/// its -x face the quarters (y, z) = (0..4, 0..4) and (4..8, 4..8) are open.
fn diagonal_neighbour() -> OctreeBoxEntry {
    let mut voxels = [0u8; 64];
    for z in 0..8 {
        for y in 0..8 {
            if (y >= 4) != (z >= 4) {
                voxels[z * 8 + y] = 0x0f;
            }
        }
    }
    OctreeBoxEntry { voxels, material: 6 }
}

#[test]
fn face_against_only_full_quarters_is_hidden() {
    let mut map = Array3D2P::new(empty(), 2);
    // solid for y in 4..8, z in 0..4: its +x face covers only a full quarter
    let mut voxels = [0u8; 64];
    for z in 0..4 {
        for y in 4..8 {
            voxels[z * 8 + y] = 0xff;
        }
    }
    map.set(origin(), OctreeBoxEntry { voxels, material: 5 });
    map.set(UVec3::new(1, 0, 0), diagonal_neighbour());
    let table = generate_bounding_box_mask_lookup_table();
    let (quads, _) = mesh_pages(&map, &table);
    assert!(quads.iter().all(|q| !(q.flags == 1 && q.material_pointer == 0)));
    assert!(quads.iter().any(|q| q.flags == 0 && q.material_pointer == 0));
}

#[test]
fn face_against_two_open_quarters_gives_two_pieces() {
    let mut map = Array3D2P::new(empty(), 2);
    map.set(origin(), solid(5));
    map.set(UVec3::new(1, 0, 0), diagonal_neighbour());
    let table = generate_bounding_box_mask_lookup_table();
    let (quads, _) = mesh_pages(&map, &table);
    let shared: Vec<(u8, u8, u8, u8)> = quads
        .iter()
        .filter(|q| q.flags == 1 && q.material_pointer == 0)
        .map(|q| (q.x, q.y, q.z, q.size))
        .collect();
    assert_eq!(shared, vec![(8, 0, 0, encode_size(4, 4)), (8, 4, 4, encode_size(4, 4))]);
}

#[test]
fn quads_carry_their_page_position() {
    let mut map = Array3D2P::new(empty(), 2);
    map.set(UVec3::new(1, 1, 0), solid(5));
    let table = generate_bounding_box_mask_lookup_table();
    let (quads, _) = mesh_pages(&map, &table);
    let mut origins: Vec<(u8, u8, u8, u8)> = quads.iter().map(|q| (q.flags, q.x, q.y, q.z)).collect();
    origins.sort();
    assert_eq!(
        origins,
        vec![(0, 8, 8, 0), (1, 16, 8, 0), (2, 8, 8, 0), (3, 8, 16, 0), (4, 8, 8, 0), (5, 8, 8, 8)]
    );
}

#[test]
fn solid_page_against_partial_neighbour_open_on_the_seam_shows_one_quad() {
    let mut map = Array3D2P::new(empty(), 2);
    map.set(origin(), solid(5));
    // the neighbour across +x is empty on its low-x half and solid on its high-x half
    map.set(UVec3::new(1, 0, 0), OctreeBoxEntry { voxels: [0xf0u8; 64], material: 6 });
    assert_eq!(exposed_faces(&map, origin()).1 & RIGHT, RIGHT);
    let table = generate_bounding_box_mask_lookup_table();
    let (quads, _) = mesh_pages(&map, &table);
    let on_seam: Vec<&OctreeRenderAttribute> = quads.iter().filter(|q| q.flags < 2 && q.x == 8).collect();
    assert_eq!(on_seam.len(), 1);
    assert_eq!((on_seam[0].flags, on_seam[0].y, on_seam[0].z), (1, 0, 0));
    assert_eq!(on_seam[0].size, encode_size(8, 8));
}
