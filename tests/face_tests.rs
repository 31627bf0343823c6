use rusty_voxel_engine::face::{decode_size, encode_size, FaceExtent};

#[test]
fn size_round_trip_for_all_extents() {
    for w in 1u8..=8 {
        for h in 1u8..=8 {
            assert_eq!(decode_size(encode_size(w, h)), (w, h));
        }
    }
}

#[test]
fn size_encoding_values() {
    assert_eq!(encode_size(1, 1), 0);
    assert_eq!(encode_size(3, 5), 34);
    assert_eq!(encode_size(8, 8), 63);
    assert_eq!(decode_size(34), (3, 5));
}

#[test]
fn extent_from_points_and_intersection() {
    let a = FaceExtent::new_with_points(1, 2, 4, 8);
    assert_eq!((a.x, a.y, a.width(), a.height()), (1, 2, 3, 6));
    let b = FaceExtent::new_with_points(3, 0, 8, 4);
    let c = a.intersection(&b).expect("overlap");
    assert_eq!((c.x, c.y, c.width(), c.height()), (3, 2, 1, 2));
    let d = FaceExtent::new_with_points(4, 0, 8, 2);
    assert_eq!(a.intersection(&d), None);
}
