use dicom_preprocessor::density::{f16_round, f16_units_of, Density, DENSITY_ONE};
use dicom_preprocessor::pack::{decode_ptr, decode_range, decode_voxel, encode_ptr, encode_range,
    encode_voxel};
use dicom_preprocessor::uvec3::UVec3;

fn units_to_f64(units: i64) -> f64 {
    units as f64 / DENSITY_ONE as f64
}

#[test]
fn f16_one_has_expected_bits_and_units() {
    // 1.0 in half precision is 0x3C00.
    assert_eq!(f16_units_of(0x3C00), DENSITY_ONE);
    assert_eq!(f16_round(DENSITY_ONE), 0x3C00);
    assert_eq!(f16_round(0), 0x0000);
    assert_eq!(f16_round(-DENSITY_ONE), 0xBC00);
    assert_eq!(f16_units_of(0xBC00), -DENSITY_ONE);
}

#[test]
fn f16_round_matches_reference_half_crate() {
    // Samples chosen to be exact in single precision, so the reference
    // conversion rounds exactly once, like the library does.
    let samples: Vec<i64> = vec![
        0,
        255,                               // smallest positive subnormal
        255 * 3,
        DENSITY_ONE,                       // 1.0
        DENSITY_ONE / 2,                   // 0.5
        DENSITY_ONE + 255 * 8192,          // 1.0 + 2^-11: tie, rounds to even
        DENSITY_ONE + 255 * (8192 + 2048), // above the tie, rounds up
        DENSITY_ONE * 3,
        -DENSITY_ONE * 7 / 2,
        255 * ((1 << 30) + 3 * (1 << 12)),
        255 * 2047 * 536870912,            // largest finite magnitude
    ];
    for &u in &samples {
        let expected = half::f16::from_f32(units_to_f64(u) as f32).to_bits();
        assert_eq!(f16_round(u), expected, "units {}", u);
    }
    // The tie itself rounds to the even neighbor, one unit above rounds up.
    assert_eq!(f16_round(DENSITY_ONE + 255 * 8192), 0x3C00);
    assert_eq!(f16_round(DENSITY_ONE + 255 * 8193), 0x3C01);
}

#[test]
fn f16_units_roundtrip_through_half_crate() {
    let bits: Vec<u16> = vec![0x0000, 0x0001, 0x03FF, 0x0400, 0x3C00, 0x7BFF, 0x8001, 0xBC00];
    for &b in &bits {
        let v = half::f16::from_bits(b).to_f64();
        let units = f16_units_of(b);
        assert_eq!(units_to_f64(units), v, "bits {:#06x}", b);
    }
}

#[test]
fn range_word_packs_min_low_max_high() {
    let w = encode_range(Density::new(0), Density::new(DENSITY_ONE));
    assert_eq!(w, 0x3C00_0000);
    let (lo, hi) = decode_range(w);
    assert_eq!(lo.units, 0);
    assert_eq!(hi.units, DENSITY_ONE);
}

#[test]
fn ptr_word_layout() {
    // x in bits 22..32, y in 12..22, z in 2..12.
    let w = encode_ptr(&UVec3::new(1, 2, 3));
    assert_eq!(w, (1 << 22) | (2 << 12) | (3 << 2));
    assert_eq!(decode_ptr(w), UVec3::new(1, 2, 3));
    assert_eq!(encode_ptr(&UVec3::new(0, 0, 0)), 0);
    let all = encode_ptr(&UVec3::new(1023, 1023, 1023));
    assert_eq!(decode_ptr(all), UVec3::new(1023, 1023, 1023));
}

#[test]
fn voxel_quantization_roundtrip() {
    let lo = Density::new(0);
    let hi = Density::new(DENSITY_ONE);
    assert_eq!(encode_voxel(Density::new(0), lo, hi), 0);
    assert_eq!(encode_voxel(Density::new(DENSITY_ONE), lo, hi), 255);
    // 0.5 normalizes to 127.5 and rounds half up to 128.
    assert_eq!(encode_voxel(Density::new(DENSITY_ONE / 2), lo, hi), 128);
    // Values outside the range clamp.
    assert_eq!(encode_voxel(Density::new(-5), lo, hi), 0);
    assert_eq!(encode_voxel(Density::new(DENSITY_ONE + 5), lo, hi), 255);
    // A degenerate range always quantizes to zero.
    assert_eq!(encode_voxel(Density::new(7), lo, lo), 0);
    // Decoding an in-range sample lands within (hi - lo) / 510 of it.
    let step = DENSITY_ONE / 255;
    for byte in [0u8, 1, 100, 128, 254, 255] {
        let d = decode_voxel(byte, lo, hi);
        assert_eq!(d.units, byte as i64 * step);
        let back = encode_voxel(d, lo, hi);
        assert_eq!(back, byte);
    }
    for v in [0i64, 1, DENSITY_ONE / 3, DENSITY_ONE - 1] {
        let b = encode_voxel(Density::new(v), lo, hi);
        let d = decode_voxel(b, lo, hi);
        assert!(510 * (d.units - v).abs() <= DENSITY_ONE, "v {}", v);
    }
}
