use rusty_voxel_engine::bbox::{generate_bounding_box_mask_lookup_table, BoundingBox};
use rusty_voxel_engine::types::UVec3;

fn bb(x: u8, y: u8, z: u8, u: u8, v: u8, w: u8) -> BoundingBox {
    BoundingBox { x, y, z, u, v, w }
}

#[test]
fn table_matches_brute_force_union_of_corner_cubes() {
    let table = generate_bounding_box_mask_lookup_table();
    assert_eq!(table.len(), 256);
    for mask in 0usize..256 {
        let mut lo = [2u8; 3];
        let mut hi = [0u8; 3];
        let mut any = false;
        for z in 0u8..2 {
            for y in 0u8..2 {
                for x in 0u8..2 {
                    if mask & (1 << ((z << 2) | (y << 1) | x)) != 0 {
                        any = true;
                        let c = [x, y, z];
                        for a in 0..3 {
                            lo[a] = lo[a].min(c[a]);
                            hi[a] = hi[a].max(c[a] + 1);
                        }
                    }
                }
            }
        }
        let expected = if any {
            bb(lo[0], lo[1], lo[2], hi[0], hi[1], hi[2])
        } else {
            bb(0, 0, 0, 0, 0, 0)
        };
        assert_eq!(table[mask], expected, "mask {}", mask);
    }
}

#[test]
fn table_spot_values() {
    let table = generate_bounding_box_mask_lookup_table();
    assert_eq!(table[0], bb(0, 0, 0, 0, 0, 0));
    assert!(table[0].zero());
    assert_eq!(table[1], bb(0, 0, 0, 1, 1, 1));
    assert_eq!(table[0x80], bb(1, 1, 1, 2, 2, 2));
    assert_eq!(table[0x81], bb(0, 0, 0, 2, 2, 2));
    assert_eq!(table[0x03], bb(0, 0, 0, 2, 1, 1));
    assert_eq!(table[0xff], bb(0, 0, 0, 2, 2, 2));
}

#[test]
fn union_intersection_and_zero() {
    let a = BoundingBox::new(UVec3::new(0, 1, 2), UVec3::new(3, 3, 3));
    assert_eq!(a, bb(0, 1, 2, 3, 4, 5));
    let b = bb(2, 0, 4, 6, 2, 8);
    assert_eq!(a.union(b), bb(0, 0, 2, 6, 4, 8));
    assert_eq!(a.intersection(b), bb(2, 1, 4, 3, 2, 5));
    assert!(!a.intersection(b).zero());
    assert!(a.intersection(bb(4, 0, 0, 8, 8, 8)).zero());
    assert!(bb(1, 1, 1, 1, 2, 2).zero());
    assert!(!bb(1, 1, 1, 2, 2, 2).zero());
}
