use dicom_preprocessor::buf3d::Buf3D;
use dicom_preprocessor::uvec3::UVec3;

#[test]
fn new_fills_and_sizes() {
    let b: Buf3D<u32> = Buf3D::new(UVec3::new(3, 4, 5), 7);
    assert_eq!(b.data.len(), 60);
    assert!(b.data.iter().all(|&x| x == 7));
    assert_eq!(b.stride, UVec3::new(3, 4, 5));
}

#[test]
fn empty_buffer() {
    let b: Buf3D<u8> = Buf3D::empty();
    assert_eq!(b.data.len(), 0);
    assert_eq!(b.stride, UVec3::new(0, 0, 0));
}

#[test]
fn index_coord_bijection() {
    // Buffer bijection: coord(index(c)) == c and index(coord(i)) == i.
    let b: Buf3D<u8> = Buf3D::new(UVec3::new(3, 4, 5), 0);
    for z in 0..5u32 {
        for y in 0..4u32 {
            for x in 0..3u32 {
                let c = UVec3::new(x, y, z);
                let i = b.calculate_index(c);
                assert_eq!(i, (z * 12 + y * 3 + x) as usize);
                assert_eq!(b.calculate_coord(i), c);
            }
        }
    }
    for i in 0..60usize {
        assert_eq!(b.calculate_index(b.calculate_coord(i)), i);
    }
}

#[test]
fn prune_truncates_depth() {
    let mut b: Buf3D<u16> = Buf3D::new(UVec3::new(2, 2, 3), 9);
    b.prune(1);
    assert_eq!(b.stride, UVec3::new(2, 2, 1));
    assert_eq!(b.data.len(), 4);
    b.prune(0);
    assert_eq!(b.data.len(), 0);
}

#[test]
fn resize_preserves_prefix() {
    let mut b: Buf3D<u16> = Buf3D::new(UVec3::new(2, 2, 1), 3);
    b.resize(&UVec3::new(2, 2, 2), 9);
    assert_eq!(b.stride, UVec3::new(2, 2, 2));
    assert_eq!(b.data, vec![3, 3, 3, 3, 9, 9, 9, 9]);
    b.resize(&UVec3::new(2, 1, 1), 0);
    assert_eq!(b.data, vec![3, 3]);
}

#[test]
fn append_depth_slice_concatenates() {
    // Append semantics: strides (W,H,d1) + (W,H,d2) -> (W,H,d1+d2), data in
    // depth order.
    let mut a: Buf3D<u16> = Buf3D::new(UVec3::new(2, 2, 1), 1);
    let mut b: Buf3D<u16> = Buf3D::new(UVec3::new(2, 2, 2), 2);
    let ok = a.append_depth_slice(&mut b);
    assert!(ok);
    assert_eq!(a.stride, UVec3::new(2, 2, 3));
    assert_eq!(a.data, vec![1, 1, 1, 1, 2, 2, 2, 2, 2, 2, 2, 2]);
    assert_eq!(b.data.len(), 0);
    assert_eq!(b.stride, UVec3::new(2, 2, 0));
}

#[test]
fn append_depth_slice_rejects_mismatch() {
    let mut a: Buf3D<u16> = Buf3D::new(UVec3::new(2, 2, 1), 1);
    let mut b: Buf3D<u16> = Buf3D::new(UVec3::new(3, 2, 1), 2);
    let ok = a.append_depth_slice(&mut b);
    assert!(!ok);
    // Nothing is corrupted by the failed append.
    assert_eq!(a.stride, UVec3::new(2, 2, 1));
    assert_eq!(a.data, vec![1, 1, 1, 1]);
    assert_eq!(b.stride, UVec3::new(3, 2, 1));
    assert_eq!(b.data, vec![2, 2, 2, 2, 2, 2]);
}
