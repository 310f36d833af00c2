//! Packed word formats of the brick grid.
//!
//! These layouts are part of the external buffer contract: consumers read the
//! exported buffers directly.
//!
//! * A range word packs two half-precision bit patterns: the low 16 bits hold
//!   the local minimum, the high 16 bits the local maximum.
//! * An indirection word packs an atlas-brick coordinate as three 10-bit
//!   fields, `x` highest: `x` in bits 22..32, `y` in bits 12..22, `z` in bits
//!   2..12. The all-zero word doubles as the "homogeneous brick" sentinel.
//! * An atlas byte holds a sample quantized against the brick's (re-decoded)
//!   range: `round(255 * clamp((v - lo) / (hi - lo), 0, 1))`.
//!
//! All packing arithmetic is expressed with multiplication, division and
//! remainder by powers of two, which coincides with the shift-and-mask view
//! of the same words.

use crate::density::{f16_is_finite, f16_round_bits, f16_units, f16_units_of, f16_round,
    Density, DENSITY_ABS_MAX};
use crate::uvec3::UVec3;
use vstd::prelude::*;

verus! {

/// Bricks are fixed 8x8x8 voxel cubes.
pub const BRICK_SIZE: u32 = 8;

/// Width of one packed pointer field.
pub const BITS_PER_AXIS: u32 = 10;

/// Hard addressing ceiling of the packed pointer: 2^BITS_PER_AXIS.
pub const MAX_BRICKS: u32 = 1024;

/// 8 * 8 * 8.
pub const VOXELS_PER_BRICK: u32 = 512;

/// Number of additional min/max pyramid levels over the range table.
pub const NUM_MIPMAPS: u32 = 3;

// ---------------------------------------------------------------------------
// Range words.
// ---------------------------------------------------------------------------

/// The word packing two half-precision patterns, minimum low.
pub open spec fn range_word(lo_bits: u16, hi_bits: u16) -> u32 {
    (lo_bits + hi_bits * 0x10000) as u32
}

pub open spec fn range_lo_bits(word: u32) -> u16 {
    (word % 0x10000) as u16
}

pub open spec fn range_hi_bits(word: u32) -> u16 {
    (word / 0x10000) as u16
}

/// The range word a pair of unit counts encodes to.
pub open spec fn encode_range_spec(lo_units: int, hi_units: int) -> u32 {
    range_word(f16_round_bits(lo_units), f16_round_bits(hi_units))
}

/// Unit count stored in the low (minimum) half of a range word.
pub open spec fn decoded_lo(word: u32) -> int {
    f16_units(range_lo_bits(word))
}

/// Unit count stored in the high (maximum) half of a range word.
pub open spec fn decoded_hi(word: u32) -> int {
    f16_units(range_hi_bits(word))
}

/// Both halves of the word are finite patterns.
pub open spec fn range_word_finite(word: u32) -> bool {
    f16_is_finite(range_lo_bits(word)) && f16_is_finite(range_hi_bits(word))
}

/// Unpacking undoes packing.
pub proof fn lemma_range_word_roundtrip(lo_bits: u16, hi_bits: u16)
    ensures
        range_lo_bits(range_word(lo_bits, hi_bits)) == lo_bits,
        range_hi_bits(range_word(lo_bits, hi_bits)) == hi_bits,
{
    let w = lo_bits + hi_bits * 0x10000;
    assert(w == hi_bits * 0x10000 + lo_bits);
    vstd::arithmetic::div_mod::lemma_fundamental_div_mod_converse(
        w,
        0x10000,
        hi_bits as int,
        lo_bits as int,
    );
}

/// Pack a density pair into a range word, rounding each bound to the nearest
/// half-precision value.
pub fn encode_range(lo: Density, hi: Density) -> (word: u32)
    requires
        lo.wf(),
        hi.wf(),
    ensures
        word == encode_range_spec(lo.units as int, hi.units as int),
        range_word_finite(word),
        decoded_lo(word) == f16_units(f16_round_bits(lo.units as int)),
        decoded_hi(word) == f16_units(f16_round_bits(hi.units as int)),
{
    let lb: u16 = f16_round(lo.units);
    let hb: u16 = f16_round(hi.units);
    proof {
        lemma_range_word_roundtrip(lb, hb);
    }
    (lb as u32) + (hb as u32) * 0x10000
}

/// Unpack a range word into its (minimum, maximum) density pair.
pub fn decode_range(word: u32) -> (r: (Density, Density))
    requires
        range_word_finite(word),
    ensures
        r.0.units == decoded_lo(word),
        r.1.units == decoded_hi(word),
        r.0.wf(),
        r.1.wf(),
{
    let lb: u16 = (word % 0x10000) as u16;
    let hb: u16 = (word / 0x10000) as u16;
    (Density::new(f16_units_of(lb)), Density::new(f16_units_of(hb)))
}

// ---------------------------------------------------------------------------
// Indirection words.
// ---------------------------------------------------------------------------

/// The word packing an atlas-brick coordinate, 10 bits per axis, `x` highest,
/// shifted up by two bits.
pub open spec fn ptr_word(p: UVec3) -> u32 {
    (p.x * 0x400000 + p.y * 0x1000 + p.z * 4) as u32
}

pub open spec fn ptr_x(word: u32) -> u32 {
    ((word / 0x400000) % 0x400) as u32
}

pub open spec fn ptr_y(word: u32) -> u32 {
    ((word / 0x1000) % 0x400) as u32
}

pub open spec fn ptr_z(word: u32) -> u32 {
    ((word / 4) % 0x400) as u32
}

/// Unpacking undoes packing for in-range coordinates.
pub proof fn lemma_ptr_word_roundtrip(p: UVec3)
    requires
        p.x < MAX_BRICKS,
        p.y < MAX_BRICKS,
        p.z < MAX_BRICKS,
    ensures
        ptr_x(ptr_word(p)) == p.x,
        ptr_y(ptr_word(p)) == p.y,
        ptr_z(ptr_word(p)) == p.z,
        ptr_word(p) == 0 <==> p == (UVec3 { x: 0, y: 0, z: 0 }),
{
    let x = p.x as int;
    let y = p.y as int;
    let z = p.z as int;
    let w = x * 0x400000 + y * 0x1000 + z * 4;
    // x field: w == x * 2^22 + rest, rest < 2^22.
    vstd::arithmetic::div_mod::lemma_fundamental_div_mod_converse(
        w,
        0x400000,
        x,
        y * 0x1000 + z * 4,
    );
    vstd::arithmetic::div_mod::lemma_fundamental_div_mod_converse(x, 0x400, 0, x);
    // y field: w == (x * 2^10 + y) * 2^12 + z * 4, z * 4 < 2^12.
    assert(w == (x * 0x400 + y) * 0x1000 + z * 4) by (nonlinear_arith)
        requires
            w == x * 0x400000 + y * 0x1000 + z * 4,
    ;
    vstd::arithmetic::div_mod::lemma_fundamental_div_mod_converse(
        w,
        0x1000,
        x * 0x400 + y,
        z * 4,
    );
    vstd::arithmetic::div_mod::lemma_fundamental_div_mod_converse(x * 0x400 + y, 0x400, x, y);
    // z field: w == (x * 2^20 + y * 2^10 + z) * 4.
    assert(w == (x * 0x100000 + y * 0x400 + z) * 4) by (nonlinear_arith)
        requires
            w == x * 0x400000 + y * 0x1000 + z * 4,
    ;
    vstd::arithmetic::div_mod::lemma_fundamental_div_mod_converse(
        w,
        4,
        x * 0x100000 + y * 0x400 + z,
        0,
    );
    vstd::arithmetic::div_mod::lemma_fundamental_div_mod_converse(
        x * 0x100000 + y * 0x400 + z,
        0x400,
        x * 0x400 + y,
        z,
    );
}

/// Pack an atlas-brick coordinate into an indirection word.
pub fn encode_ptr(ptr: &UVec3) -> (word: u32)
    requires
        ptr.x < MAX_BRICKS,
        ptr.y < MAX_BRICKS,
        ptr.z < MAX_BRICKS,
    ensures
        word == ptr_word(*ptr),
        ptr_x(word) == ptr.x && ptr_y(word) == ptr.y && ptr_z(word) == ptr.z,
        word == 0 <==> *ptr == (UVec3 { x: 0, y: 0, z: 0 }),
{
    proof {
        lemma_ptr_word_roundtrip(*ptr);
    }
    ptr.x * 0x400000 + ptr.y * 0x1000 + ptr.z * 4
}

/// Unpack an indirection word into an atlas-brick coordinate.
pub fn decode_ptr(word: u32) -> (ptr: UVec3)
    ensures
        ptr == (UVec3 { x: ptr_x(word), y: ptr_y(word), z: ptr_z(word) }),
        ptr.x < MAX_BRICKS && ptr.y < MAX_BRICKS && ptr.z < MAX_BRICKS,
{
    UVec3 { x: (word / 0x400000) % 0x400, y: (word / 0x1000) % 0x400, z: (word / 4) % 0x400 }
}

// ---------------------------------------------------------------------------
// Atlas bytes.
// ---------------------------------------------------------------------------

/// Clamp a unit count into a closed range.
pub open spec fn clamp_units(v: int, lo: int, hi: int) -> int {
    if v < lo {
        lo
    } else if v > hi {
        hi
    } else {
        v
    }
}

/// The byte a sample quantizes to against the range `[lo, hi]`:
/// `round(255 * (clamped - lo) / (hi - lo))`, computed exactly; a degenerate
/// range always quantizes to zero.
pub open spec fn quantize_byte(v: int, lo: int, hi: int) -> int {
    let r = hi - lo;
    if r <= 0 {
        0
    } else {
        let t = clamp_units(v, lo, hi) - lo;
        (510 * t + r) / (2 * r)
    }
}

/// The unit count a byte decodes to against the range `[lo, hi]`:
/// `lo + byte * (hi - lo) / 255`.
pub open spec fn dequantize_byte(b: int, lo: int, hi: int) -> int {
    lo + b * ((hi - lo) / 255)
}

/// Quantize a sample against a decoded brick range.
pub fn encode_voxel(value: Density, lo: Density, hi: Density) -> (byte: u8)
    requires
        value.wf(),
        lo.wf(),
        hi.wf(),
    ensures
        byte == quantize_byte(value.units as int, lo.units as int, hi.units as int),
{
    let r: i64 = if hi.units <= lo.units {
        return 0u8;
    } else {
        hi.units - lo.units
    };
    let t: i64 = if value.units < lo.units {
        0
    } else if value.units > hi.units {
        r
    } else {
        value.units - lo.units
    };
    assert(0 <= t <= r <= 2 * DENSITY_ABS_MAX);
    let num: u64 = 510 * (t as u64) + (r as u64);
    let den: u64 = 2 * (r as u64);
    let q: u64 = num / den;
    proof {
        let ti = t as int;
        let ri = r as int;
        assert((510 * ti + ri) / (2 * ri) <= 255) by (nonlinear_arith)
            requires
                0 <= ti <= ri,
                1 <= ri,
        ;
        assert(0 <= (510 * ti + ri) / (2 * ri)) by (nonlinear_arith)
            requires
                0 <= ti,
                1 <= ri,
        ;
    }
    q as u8
}

/// Decode an atlas byte against a decoded brick range.
pub fn decode_voxel(data: u8, lo: Density, hi: Density) -> (d: Density)
    requires
        lo.wf(),
        hi.wf(),
        lo.units <= hi.units,
    ensures
        d.units == dequantize_byte(data as int, lo.units as int, hi.units as int),
        lo.units <= d.units <= hi.units,
        d.wf(),
{
    let diff: i64 = hi.units - lo.units;
    let step: i64 = ((diff as u64) / 255) as i64;
    proof {
        let di = diff as int;
        assert(0 <= di / 255 && 255 * (di / 255) <= di) by {
            vstd::arithmetic::div_mod::lemma_fundamental_div_mod(di, 255);
            vstd::arithmetic::div_mod::lemma_mod_bound(di, 255);
        }
        assert(0 <= data as int * (di / 255) && data as int * (di / 255) <= 255 * (di / 255))
            by (nonlinear_arith)
            requires
                0 <= data as int <= 255,
                0 <= di / 255,
        ;
    }
    let scaled: i64 = (data as i64) * step;
    Density { units: lo.units + scaled }
}

/// Round trip of quantization: decoding the quantized byte lands within
/// `(hi - lo) / 510` units of the clamped sample. The range must be a whole
/// number of 255ths, as every decoded half-precision range is.
pub proof fn lemma_quantize_roundtrip(v: int, lo: int, hi: int)
    requires
        lo <= hi,
        (hi - lo) % 255 == 0,
    ensures
        510 * vstd::math::abs(
            dequantize_byte(quantize_byte(v, lo, hi), lo, hi) - clamp_units(v, lo, hi),
        ) <= hi - lo,
        0 <= quantize_byte(v, lo, hi) <= 255,
{
    let r = hi - lo;
    let g = r / 255;
    assert(255 * g == r) by {
        vstd::arithmetic::div_mod::lemma_fundamental_div_mod(r, 255);
    }
    if r == 0 {
        assert(quantize_byte(v, lo, hi) == 0);
        assert(dequantize_byte(0, lo, hi) == lo);
        assert(clamp_units(v, lo, hi) == lo);
    } else {
        let t = clamp_units(v, lo, hi) - lo;
        let b = (510 * t + r) / (2 * r);
        assert(0 <= t <= r);
        // Floor-division bracketing of the rounded byte.
        vstd::arithmetic::div_mod::lemma_fundamental_div_mod(510 * t + r, 2 * r);
        let rem = (510 * t + r) % (2 * r);
        vstd::arithmetic::div_mod::lemma_mod_bound(510 * t + r, 2 * r);
        assert(510 * t + r == (2 * r) * b + rem && 0 <= rem < 2 * r);
        // 2 * |255 t - r b| <= r, hence 510 |b g - t| <= r.
        assert(2 * (255 * t - r * b) <= r && 2 * (r * b - 255 * t) <= r) by (nonlinear_arith)
            requires
                510 * t + r == (2 * r) * b + rem,
                0 <= rem < 2 * r,
                0 < r,
        ;
        assert((2 * b) * r <= 511 * r) by (nonlinear_arith)
            requires
                510 * t + r == (2 * r) * b + rem,
                0 <= rem,
                0 <= t <= r,
                0 < r,
        ;
        assert(2 * b <= 511) by (nonlinear_arith)
            requires
                (2 * b) * r <= 511 * r,
                0 < r,
        ;
        assert(0 <= b) by (nonlinear_arith)
            requires
                510 * t + r == (2 * r) * b + rem,
                rem < 2 * r,
                0 <= t,
                0 < r,
        ;
        assert(dequantize_byte(b, lo, hi) - clamp_units(v, lo, hi) == b * g - t);
        assert(510 * (b * g - t) == 2 * (r * b - 255 * t) && 510 * (t - b * g) == 2 * (255 * t
            - r * b)) by (nonlinear_arith)
            requires
                255 * g == r,
        ;
    }
}

// ---------------------------------------------------------------------------
// Extent helpers.
// ---------------------------------------------------------------------------

/// Ceiling division: `(n + d - 1) / d`.
pub open spec fn ceil_div(n: int, d: int) -> int {
    (n + d - 1) / d
}

/// Component-wise ceiling division of an extent by a divisor.
pub fn div_round_up(num: UVec3, denom: UVec3) -> (r: UVec3)
    requires
        denom.x >= 1 && denom.y >= 1 && denom.z >= 1,
        num.x + denom.x <= u32::MAX,
        num.y + denom.y <= u32::MAX,
        num.z + denom.z <= u32::MAX,
    ensures
        r.x == ceil_div(num.x as int, denom.x as int),
        r.y == ceil_div(num.y as int, denom.y as int),
        r.z == ceil_div(num.z as int, denom.z as int),
{
    UVec3 {
        x: (num.x + denom.x - 1) / denom.x,
        y: (num.y + denom.y - 1) / denom.y,
        z: (num.z + denom.z - 1) / denom.z,
    }
}

} // verus!
