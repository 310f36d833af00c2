use dicom_preprocessor::brick::{BrickGrid, ConstructError};
use dicom_preprocessor::buf3d::Buf3D;
use dicom_preprocessor::density::DENSITY_ONE;
use dicom_preprocessor::grid::{Grid, Scale3};
use dicom_preprocessor::pack::decode_range;
use dicom_preprocessor::source::DicomDataInternal;
use dicom_preprocessor::uvec3::UVec3;

fn make_source<F: Fn(u32, u32, u32) -> u16>(
    w: u32,
    h: u32,
    d: u32,
    max: u16,
    f: F,
) -> DicomDataInternal {
    let mut data: Vec<u16> = Vec::new();
    let mut histogram: Vec<u32> = vec![0; max as usize + 1];
    let mut min: u16 = u16::MAX;
    for z in 0..d {
        for y in 0..h {
            for x in 0..w {
                let s = f(x, y, z);
                assert!(s <= max);
                histogram[s as usize] += 1;
                if s < min {
                    min = s;
                }
                data.push(s);
            }
        }
    }
    DicomDataInternal {
        data: Buf3D { stride: UVec3::new(w, h, d), data },
        histogram,
        min,
        max,
        scaling: Scale3 { x: 0x3F800000, y: 0x3F800000, z: 0x3DCCCCCD },
    }
}

fn inside_sphere(x: u32, y: u32, z: u32) -> bool {
    let dx = x as i64 - 8;
    let dy = y as i64 - 8;
    let dz = z as i64 - 8;
    dx * dx + dy * dy + dz * dz < 36
}

#[test]
fn homogeneous_source_compresses_to_nothing() {
    // A single constant density everywhere. Probes outside the extent read
    // zero, so the only density that is constant over every dilated brick is
    // zero itself; such a volume costs no atlas bricks at all, and lookup
    // returns the constant exactly.
    let src = make_source(16, 16, 16, 1, |_, _, _| 0);
    let g = BrickGrid::construct(&src).unwrap();
    assert_eq!(g.brick_counter, 0);
    assert_eq!(g.num_voxels(), 0);
    assert_eq!(g.atlas_data().len(), 0);
    assert!(g.indirection_data().iter().all(|&w| w == 0));
    for &p in &[(0, 0, 0), (5, 9, 13), (63, 63, 63)] {
        let d = g.lookup(UVec3::new(p.0, p.1, p.2));
        assert_eq!(d.units, 0);
    }
}

#[test]
fn interior_bricks_of_a_constant_volume_stay_homogeneous() {
    // With a 32-voxel-wide constant volume the interior bricks' dilated
    // regions stay inside the extent: they compress away, while boundary
    // bricks (whose halos read zero outside) allocate. 0.5 is exact in half
    // precision, so interior lookups return it exactly.
    let src = make_source(32, 32, 32, 4, |_, _, _| 2);
    let g = BrickGrid::construct(&src).unwrap();
    let ind = g.indirection_data();
    for bz in 0..8u32 {
        for by in 0..8u32 {
            for bx in 0..8u32 {
                let j = (bz * 64 + by * 8 + bx) as usize;
                let interior = (1..3).contains(&bx) && (1..3).contains(&by) && (1..3).contains(
                    &bz,
                );
                let outside = bx > 4 && by > 4 && bz > 4;
                if interior || outside {
                    assert_eq!(ind[j], 0, "brick ({},{},{})", bx, by, bz);
                }
            }
        }
    }
    assert_eq!(g.lookup(UVec3::new(12, 12, 12)).units, DENSITY_ONE / 2);
    assert_eq!(g.lookup(UVec3::new(16, 8, 9)).units, DENSITY_ONE / 2);
}

#[test]
fn oversized_extent_fails_deterministically() {
    // An extent forcing 1024 bricks on an axis must fail; it never truncates.
    let src = make_source(8232, 1, 1, 1, |x, _, _| (x % 2) as u16);
    match BrickGrid::construct(&src) {
        Err(ConstructError::AddressingOverflow) => {},
        Ok(_) => panic!("construction must fail past the addressing ceiling"),
    }
    // One voxel below the ceiling still works: 8128 voxels -> 1016 bricks.
    let src_ok = make_source(8128, 1, 1, 1, |x, _, _| (x % 2) as u16);
    let g = BrickGrid::construct(&src_ok).unwrap();
    assert_eq!(g.ind_x(), 1016);
}

#[test]
fn sphere_source_allocates_only_straddling_bricks() {
    let src = make_source(16, 16, 16, 1, |x, y, z| {
        if inside_sphere(x, y, z) {
            1
        } else {
            0
        }
    });
    let g = BrickGrid::construct(&src).unwrap();
    // Global bounds (0, 1).
    let (mn, mj) = g.minorant_majorant();
    assert_eq!(mn.units, 0);
    assert_eq!(mj.units, DENSITY_ONE);
    // Brick space: 16 voxels -> 2 bricks, rounded up to the mip multiple 8.
    assert_eq!(g.index_extent(), UVec3::new(64, 64, 64));
    assert_eq!((g.ind_x(), g.ind_y(), g.ind_z()), (8, 8, 8));
    assert_eq!((g.range_x(), g.range_y(), g.range_z()), (8, 8, 8));
    // Exactly the eight octant bricks of the source straddle the sphere
    // boundary; everything else is homogeneous.
    assert_eq!(g.brick_counter, 8);
    assert_eq!(g.num_voxels(), 8 * 512);
    let ind = g.indirection_data();
    for bz in 0..8u32 {
        for by in 0..8u32 {
            for bx in 0..8u32 {
                let j = (bz * 64 + by * 8 + bx) as usize;
                if bx < 2 && by < 2 && bz < 2 {
                    assert_ne!(ind[j], 0, "octant brick ({},{},{})", bx, by, bz);
                } else {
                    assert_eq!(ind[j], 0, "far brick ({},{},{})", bx, by, bz);
                }
            }
        }
    }
    // The atlas was pruned to one slab of bricks: slot 0 reserved plus the
    // eight claimed slots fit in the first depth row.
    assert_eq!((g.atlas_x(), g.atlas_y(), g.atlas_z()), (64, 64, 8));
    // Lookups: deep inside and far outside are exact; every source voxel is
    // within the quantization and rounding budget.
    assert_eq!(g.lookup(UVec3::new(8, 8, 8)).units, DENSITY_ONE);
    assert_eq!(g.lookup(UVec3::new(0, 0, 0)).units, 0);
    let budget = DENSITY_ONE / 255 + 2 * (128 + DENSITY_ONE / 2048);
    for z in 0..16u32 {
        for y in 0..16u32 {
            for x in 0..16u32 {
                let v = src.lookup(UVec3::new(x, y, z)).units;
                let d = g.lookup(UVec3::new(x, y, z)).units;
                assert!((d - v).abs() <= budget, "voxel ({},{},{})", x, y, z);
            }
        }
    }
    // Statistics carried through unchanged.
    assert_eq!(g.histogram(), src.histogram);
    assert_eq!(g.scale_x(), 0x3F800000);
    assert_eq!(g.scale_z(), 0x3DCCCCCD);
    assert_eq!(g.size_bytes(), 4 * 512 + 4 * 512 + 8 * 512 + 4 * (64 + 8 + 1));
}

#[test]
fn mip_levels_aggregate_children() {
    let src = make_source(16, 16, 16, 1, |x, y, z| {
        if inside_sphere(x, y, z) {
            1
        } else {
            0
        }
    });
    let g = BrickGrid::construct(&src).unwrap();
    assert_eq!(g.range_mipmaps.len(), 3);
    assert_eq!(g.range_mipmaps[0].stride, UVec3::new(4, 4, 4));
    assert_eq!(g.range_mipmaps[1].stride, UVec3::new(2, 2, 2));
    assert_eq!(g.range_mipmaps[2].stride, UVec3::new(1, 1, 1));
    // Every cell of every level is the union of its 2x2x2 children.
    let levels: Vec<(&Vec<u32>, UVec3, &Vec<u32>, UVec3)> = vec![
        (&g.range.data, UVec3::new(8, 8, 8), &g.range_mipmaps[0].data, UVec3::new(4, 4, 4)),
        (
            &g.range_mipmaps[0].data,
            UVec3::new(4, 4, 4),
            &g.range_mipmaps[1].data,
            UVec3::new(2, 2, 2),
        ),
        (
            &g.range_mipmaps[1].data,
            UVec3::new(2, 2, 2),
            &g.range_mipmaps[2].data,
            UVec3::new(1, 1, 1),
        ),
    ];
    for (src_words, sstride, dst_words, dstride) in levels {
        for cz in 0..dstride.z {
            for cy in 0..dstride.y {
                for cx in 0..dstride.x {
                    let mut lo = i64::MAX;
                    let mut hi = i64::MIN;
                    for t in 0..8u32 {
                        let ch = (
                            2 * cx + t % 2,
                            2 * cy + (t / 2) % 2,
                            2 * cz + t / 4,
                        );
                        let si = (ch.2 * sstride.x * sstride.y + ch.1 * sstride.x + ch.0) as usize;
                        let (clo, chi) = decode_range(src_words[si]);
                        lo = lo.min(clo.units);
                        hi = hi.max(chi.units);
                    }
                    let di = (cz * dstride.x * dstride.y + cy * dstride.x + cx) as usize;
                    let (dlo, dhi) = decode_range(dst_words[di]);
                    assert_eq!(dlo.units, lo);
                    assert_eq!(dhi.units, hi);
                }
            }
        }
    }
}

#[test]
fn reserved_atlas_slot_stays_clear() {
    let src = make_source(16, 16, 16, 1, |x, y, z| {
        if inside_sphere(x, y, z) {
            1
        } else {
            0
        }
    });
    let g = BrickGrid::construct(&src).unwrap();
    // Slot (0,0,0) is never claimed: the all-zero indirection word stays an
    // unambiguous homogeneous sentinel.
    for z in 0..8u32 {
        for y in 0..8u32 {
            for x in 0..8u32 {
                let i = (z * 64 * 64 + y * 64 + x) as usize;
                assert_eq!(g.atlas_data()[i], 0);
            }
        }
    }
}

#[test]
fn brick_grid_is_itself_a_grid_source() {
    // Composability: the grid implements the same capability it consumes.
    let src = make_source(16, 16, 16, 1, |x, y, z| {
        if inside_sphere(x, y, z) {
            1
        } else {
            0
        }
    });
    let g = BrickGrid::construct(&src).unwrap();
    let g2 = BrickGrid::construct(&g).unwrap();
    assert_eq!(g2.index_extent(), UVec3::new(64, 64, 64));
    assert_eq!(g2.lookup(UVec3::new(8, 8, 8)).units, DENSITY_ONE);
    assert_eq!(g2.lookup(UVec3::new(0, 0, 0)).units, 0);
    assert_eq!(g2.histogram(), src.histogram);
}
