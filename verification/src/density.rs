//! Exact fixed-point densities and half-precision range encoding.
//!
//! A density is stored as an `i64` count of `units`, where one unit is
//! `1 / (255 * 2^24)` of the natural density scale. This denominator is
//! chosen so that both ends of the pipeline are exact:
//!
//! * every finite half-precision (16-bit float) value is a whole number of
//!   units: the smallest positive half-precision value is `2^-24`, which is
//!   `255` units, and
//! * decoding an 8-bit quantized sample, `lo + byte * (hi - lo) / 255`, lands
//!   on a whole number of units whenever `lo` and `hi` are half-precision
//!   values.
//!
//! Half-precision values are handled as their bit patterns (`u16`), with
//! their numeric meaning given by the spec function [`f16_scaled`], measured
//! in multiples of `2^-24`. Rounding a density to the nearest half-precision
//! value is implemented as verified integer arithmetic: a binary search over
//! the ordinal line of finite bit patterns, which is strictly ordered by
//! magnitude ([`lemma_ord_mag_increases`]).

use vstd::arithmetic::power2::{
    lemma2_to64, lemma_pow2_pos, lemma_pow2_strictly_increases, lemma_pow2_unfold, pow2,
};
use vstd::prelude::*;

verus! {

/// Density units per 1.0 of the natural density scale: `255 * 2^24`.
pub const DENSITY_ONE: i64 = 255 * 16777216;

/// Largest finite half-precision magnitude (65504), in multiples of `2^-24`:
/// `(1024 + 1023) * 2^29`.
pub const F16_MAX_SCALED: i64 = 2047 * 536870912;

/// Largest magnitude a well-formed density can have, in units: the largest
/// finite half-precision magnitude.
pub const DENSITY_ABS_MAX: i64 = 255 * 2047 * 536870912;

/// A scalar density sample, as an exact count of fixed-point units.
#[derive(Clone, Copy, PartialEq, Eq, Structural, Debug)]
pub struct Density {
    pub units: i64,
}

/// A unit count that stays within the encodable half-precision range.
pub open spec fn density_wf(u: int) -> bool {
    -DENSITY_ABS_MAX <= u <= DENSITY_ABS_MAX
}

impl Density {
    pub open spec fn wf(self) -> bool {
        density_wf(self.units as int)
    }

    pub fn zero() -> (d: Density)
        ensures
            d.units == 0,
    {
        Density { units: 0 }
    }

    pub fn new(units: i64) -> (d: Density)
        ensures
            d.units == units,
    {
        Density { units }
    }
}

// ---------------------------------------------------------------------------
// Half-precision bit patterns.
//
// A finite bit pattern splits into a sign bit and a magnitude ordinal
// `o in [0, 0x7C00)`; `o / 1024` is the biased exponent and `o % 1024` the
// fraction. Magnitudes are measured in multiples of 2^-24, so a subnormal
// (exponent 0) has magnitude `o` and a normal value has magnitude
// `(1024 + o % 1024) * 2^(o / 1024 - 1)`.
// ---------------------------------------------------------------------------

/// Magnitude ordinal of a bit pattern (the bits below the sign bit).
pub open spec fn f16_ord(bits: u16) -> int {
    (bits % 0x8000) as int
}

pub open spec fn f16_is_neg(bits: u16) -> bool {
    bits >= 0x8000
}

/// Finite patterns are those whose exponent field is not all ones.
pub open spec fn f16_is_finite(bits: u16) -> bool {
    f16_ord(bits) < 0x7C00
}

/// Magnitude of the half-precision value with ordinal `o`, in multiples of
/// `2^-24`. Strictly increasing in `o` over `[0, 0x7BFF]`.
pub open spec fn ord_mag(o: int) -> int {
    if o < 1024 {
        o
    } else {
        (1024 + o % 1024) * pow2((o / 1024 - 1) as nat)
    }
}

/// Signed value of a finite half-precision bit pattern, in multiples of
/// `2^-24`.
pub open spec fn f16_scaled(bits: u16) -> int {
    if f16_is_neg(bits) {
        -ord_mag(f16_ord(bits))
    } else {
        ord_mag(f16_ord(bits))
    }
}

/// Signed value of a finite half-precision bit pattern, in density units.
pub open spec fn f16_units(bits: u16) -> int {
    255 * f16_scaled(bits)
}

/// The magnitude ordinal line is strictly ordered by magnitude.
pub proof fn lemma_ord_mag_increases(o1: int, o2: int)
    requires
        0 <= o1 < o2 <= 0x7BFF,
    ensures
        ord_mag(o1) < ord_mag(o2),
{
    let e1 = o1 / 1024;
    let m1 = o1 % 1024;
    let e2 = o2 / 1024;
    let m2 = o2 % 1024;
    assert(0 <= m1 < 1024 && 0 <= m2 < 1024 && 0 <= e1 <= 30 && 0 <= e2 <= 30 && e1 <= e2
        && 1024 * e1 + m1 == o1 && 1024 * e2 + m2 == o2) by (nonlinear_arith)
        requires
            0 <= o1 < o2 <= 0x7BFF,
            e1 == o1 / 1024,
            m1 == o1 % 1024,
            e2 == o2 / 1024,
            m2 == o2 % 1024,
    ;
    if e1 == e2 {
        assert(m1 < m2);
        if e1 == 0 {
            assert(ord_mag(o1) == m1 && ord_mag(o2) == m2);
        } else {
            let p = pow2((e1 - 1) as nat) as int;
            lemma_pow2_pos((e1 - 1) as nat);
            assert((1024 + m1) * p < (1024 + m2) * p) by (nonlinear_arith)
                requires
                    m1 < m2,
                    p >= 1,
            ;
        }
    } else {
        // e1 < e2, so o2 is normal.
        assert(e2 >= 1);
        let p2 = pow2((e2 - 1) as nat) as int;
        lemma_pow2_pos((e2 - 1) as nat);
        assert(ord_mag(o2) == (1024 + m2) * p2);
        assert(1024 * p2 <= (1024 + m2) * p2) by (nonlinear_arith)
            requires
                0 <= m2,
                p2 >= 1,
        ;
        if e1 == 0 {
            assert(ord_mag(o1) == m1 < 1024);
            assert(1024 <= 1024 * p2) by (nonlinear_arith)
                requires
                    p2 >= 1,
            ;
        } else {
            let p1 = pow2((e1 - 1) as nat) as int;
            lemma_pow2_pos((e1 - 1) as nat);
            lemma_pow2_unfold(e1 as nat);
            assert(pow2(e1 as nat) == 2 * p1);
            if e1 < e2 - 1 {
                lemma_pow2_strictly_increases(e1 as nat, (e2 - 1) as nat);
            }
            assert(pow2(e1 as nat) <= p2);
            assert(ord_mag(o1) == (1024 + m1) * p1);
            assert((1024 + m1) * p1 < 1024 * (2 * p1)) by (nonlinear_arith)
                requires
                    0 <= m1 < 1024,
                    p1 >= 1,
            ;
            assert(1024 * (2 * p1) <= 1024 * p2) by (nonlinear_arith)
                requires
                    2 * p1 <= p2,
            ;
        }
    }
}

/// Magnitudes along the ordinal line stay within the finite range.
pub proof fn lemma_ord_mag_bounds(o: int)
    requires
        0 <= o <= 0x7BFF,
    ensures
        0 <= ord_mag(o) <= F16_MAX_SCALED,
        o < 0x7BFF ==> ord_mag(o) < F16_MAX_SCALED,
{
    lemma2_to64();
    assert(0x7BFFint % 1024 == 1023 && 0x7BFFint / 1024 == 30) by (nonlinear_arith);
    assert(ord_mag(0x7BFF) == (1024 + 1023) * pow2(29));
    assert(pow2(29) == 536870912);
    assert(ord_mag(0x7BFF) == F16_MAX_SCALED);
    if o < 0x7BFF {
        lemma_ord_mag_increases(o, 0x7BFF);
    }
    if o < 1024 {
    } else {
        let e = o / 1024;
        let m = o % 1024;
        assert(1 <= e && 0 <= m) by (nonlinear_arith)
            requires
                1024 <= o <= 0x7BFF,
                e == o / 1024,
                m == o % 1024,
        ;
        lemma_pow2_pos((e - 1) as nat);
        assert((1024 + m) * pow2((e - 1) as nat) >= 0) by (nonlinear_arith)
            requires
                0 <= m,
                pow2((e - 1) as nat) >= 1,
        ;
    }
}

/// Exponentiation by squaring is overkill here: a short doubling loop
/// computes `2^k` for the small exponents the format uses.
pub fn pow2_u64(k: u16) -> (p: u64)
    requires
        k <= 62,
    ensures
        p == pow2(k as nat),
{
    let mut p: u64 = 1;
    let mut i: u16 = 0;
    assert(pow2(0) == 1) by {
        lemma2_to64();
    }
    while i < k
        invariant
            i <= k <= 62,
            p == pow2(i as nat),
        decreases k - i,
    {
        proof {
            lemma_pow2_unfold((i + 1) as nat);
            lemma2_to64();
            vstd::arithmetic::power2::lemma2_to64_rest();
            if ((i + 1) as nat) < 62 {
                lemma_pow2_strictly_increases((i + 1) as nat, 62);
            }
            assert(pow2(62) == 0x4000000000000000);
        }
        p = p * 2;
        i = i + 1;
    }
    p
}

/// Magnitude of the ordinal `o`, executed.
pub fn ord_mag_u64(o: u16) -> (m: u64)
    requires
        o <= 0x7BFF,
    ensures
        m == ord_mag(o as int),
        m <= F16_MAX_SCALED,
{
    proof {
        lemma_ord_mag_bounds(o as int);
    }
    if o < 1024 {
        o as u64
    } else {
        let e: u16 = o / 1024;
        let frac: u16 = o % 1024;
        let p: u64 = pow2_u64(e - 1);
        proof {
            lemma_ord_mag_bounds(o as int);
            assert((1024 + frac) as int * p as int == ord_mag(o as int));
        }
        (1024 + frac as u64) * p
    }
}

/// Signed value of a finite bit pattern in density units, executed.
pub fn f16_units_of(bits: u16) -> (u: i64)
    requires
        f16_is_finite(bits),
    ensures
        u == f16_units(bits),
        density_wf(u as int),
{
    let o: u16 = bits % 0x8000;
    let mag: u64 = ord_mag_u64(o);
    let mag_units: i64 = 255 * (mag as i64);
    if bits >= 0x8000 {
        -mag_units
    } else {
        mag_units
    }
}

// ---------------------------------------------------------------------------
// Rounding a unit count to the nearest half-precision value.
// ---------------------------------------------------------------------------

/// `o` is the largest ordinal whose magnitude (in units) does not exceed `m`.
pub open spec fn floor_pred(m: int, o: int) -> bool {
    &&& 0 <= o <= 0x7BFF
    &&& 255 * ord_mag(o) <= m
    &&& (o == 0x7BFF || m < 255 * ord_mag(o + 1))
}

/// The floor ordinal of a nonnegative magnitude `m` in units.
pub open spec fn f16_floor_ord(m: int) -> int {
    choose|o: int| floor_pred(m, o)
}

/// At most one ordinal satisfies the floor property.
pub proof fn lemma_floor_unique(m: int, o1: int, o2: int)
    requires
        floor_pred(m, o1),
        floor_pred(m, o2),
    ensures
        o1 == o2,
{
    if o1 < o2 {
        if o1 + 1 < o2 {
            lemma_ord_mag_increases(o1 + 1, o2);
        }
        assert(255 * ord_mag(o1 + 1) <= 255 * ord_mag(o2));
    } else if o2 < o1 {
        if o2 + 1 < o1 {
            lemma_ord_mag_increases(o2 + 1, o1);
        }
        assert(255 * ord_mag(o2 + 1) <= 255 * ord_mag(o1));
    }
}

/// Ordinal of the half-precision magnitude nearest to `m` units (ties go to
/// the pattern with an even fraction field, as in the usual rounding mode).
pub open spec fn round_mag_ord(m: int) -> int {
    let o = f16_floor_ord(m);
    if o == 0x7BFF {
        o
    } else {
        let d_down = m - 255 * ord_mag(o);
        let d_up = 255 * ord_mag(o + 1) - m;
        if d_down < d_up {
            o
        } else if d_up < d_down {
            o + 1
        } else if o % 2 == 0 {
            o
        } else {
            o + 1
        }
    }
}

/// Bit pattern of the half-precision value nearest to `u` units. A magnitude
/// that rounds to zero always yields the positive zero pattern.
pub open spec fn f16_round_bits(u: int) -> u16 {
    if u >= 0 {
        round_mag_ord(u) as u16
    } else {
        let o = round_mag_ord(-u);
        if o == 0 {
            0u16
        } else {
            (0x8000 + o) as u16
        }
    }
}

/// Binary search for the floor ordinal of a magnitude.
fn floor_ord_search(m: u64) -> (o: u16)
    requires
        m <= 255 * F16_MAX_SCALED,
    ensures
        floor_pred(m as int, o as int),
        o as int == f16_floor_ord(m as int),
{
    let mut lo: u16 = 0;
    let mut hi: u16 = 0x7BFF;
    proof {
        lemma_ord_mag_bounds(0x7BFF);
    }
    while lo < hi
        invariant
            lo <= hi <= 0x7BFF,
            255 * ord_mag(lo as int) <= m,
            hi == 0x7BFF || (m as int) < 255 * ord_mag(hi as int + 1),
        decreases hi - lo,
    {
        let mid: u16 = lo + (hi - lo + 1) / 2;
        assert(lo < mid <= hi);
        let mag: u64 = ord_mag_u64(mid);
        if 255 * mag <= m {
            lo = mid;
        } else {
            hi = mid - 1;
        }
    }
    proof {
        assert(floor_pred(m as int, lo as int));
        let w = f16_floor_ord(m as int);
        assert(floor_pred(m as int, w)) by {
            assert(exists|o: int| floor_pred(m as int, o)) by {
                assert(floor_pred(m as int, lo as int));
            }
        }
        lemma_floor_unique(m as int, lo as int, w);
    }
    lo
}

/// Round a unit count to the bit pattern of the nearest half-precision
/// value.
pub fn f16_round(units: i64) -> (bits: u16)
    requires
        density_wf(units as int),
    ensures
        bits == f16_round_bits(units as int),
        f16_is_finite(bits),
{
    let neg: bool = units < 0;
    let m: u64 = if units < 0 {
        (-units) as u64
    } else {
        units as u64
    };
    let o: u16 = floor_ord_search(m);
    let cand: u16 = if o == 0x7BFF {
        o
    } else {
        let mag_down: u64 = ord_mag_u64(o);
        let mag_up: u64 = ord_mag_u64(o + 1);
        let d_down: u64 = m - 255 * mag_down;
        let d_up: u64 = 255 * mag_up - m;
        if d_down < d_up {
            o
        } else if d_up < d_down {
            o + 1
        } else if o % 2 == 0 {
            o
        } else {
            o + 1
        }
    };
    proof {
        assert(cand as int == round_mag_ord(m as int));
    }
    if neg {
        if cand == 0 {
            0
        } else {
            0x8000 + cand
        }
    } else {
        cand
    }
}

/// The rounded value is the nearest one: no finite half-precision value is
/// closer to `u` than the chosen bit pattern.
pub proof fn lemma_round_nearest(u: int, other: u16)
    requires
        density_wf(u),
        f16_is_finite(other),
    ensures
        vstd::math::abs(f16_units(f16_round_bits(u)) - u) <= vstd::math::abs(
            f16_units(other) - u,
        ),
{
    let m = if u >= 0 { u } else { -u };
    lemma_round_nearest_mag(m);
    let b = f16_round_bits(u);
    let o = round_mag_ord(m);
    // The magnitude of the rounded pattern is ord_mag(o), and its sign
    // matches the sign of u (or the value is zero), so its distance from u
    // is the magnitude distance.
    assert(f16_ord(b) == o);
    assert(vstd::math::abs(f16_units(b) - u) == vstd::math::abs(255 * ord_mag(o) - m));
    let od = f16_ord(other);
    lemma_ord_mag_bounds(od);
    if (u >= 0) == !f16_is_neg(other) || ord_mag(od) == 0 {
        // Same sign (or a zero): the distance from u to the other pattern is
        // its magnitude distance.
        assert(vstd::math::abs(f16_units(other) - u) >= vstd::math::abs(
            255 * ord_mag(od) - m,
        ));
        assert(vstd::math::abs(255 * ord_mag(o) - m) <= vstd::math::abs(
            255 * ord_mag(od) - m,
        ));
    } else {
        // Opposite signs: the distance is the sum of the magnitudes, and the
        // zero pattern is already at distance m.
        assert(vstd::math::abs(f16_units(other) - u) == 255 * ord_mag(od) + m);
        assert(vstd::math::abs(255 * ord_mag(o) - m) <= vstd::math::abs(
            255 * ord_mag(0) - m,
        ));
        assert(vstd::math::abs(255 * ord_mag(0) - m) == m);
    }
}

/// Quantitative rounding error: the nearest half-precision value is within
/// half of the local spacing, which is at most `128 + |u| / 2048` units.
pub proof fn lemma_round_err(u: int)
    requires
        density_wf(u),
    ensures
        2048 * vstd::math::abs(f16_units(f16_round_bits(u)) - u) <= 261120 + vstd::math::abs(u),
        density_wf(f16_units(f16_round_bits(u))),
        f16_is_finite(f16_round_bits(u)),
{
    let m = if u >= 0 { u } else { -u };
    lemma_floor_ord_exists(m);
    let fo = f16_floor_ord(m);
    let ro = round_mag_ord(m);
    let b = f16_round_bits(u);
    lemma_ord_mag_bounds(fo);
    assert(f16_ord(b) == ro);
    lemma_ord_mag_bounds(ro);
    assert(vstd::math::abs(f16_units(b) - u) == vstd::math::abs(255 * ord_mag(ro) - m));
    let err = vstd::math::abs(255 * ord_mag(ro) - m);
    if fo == 0x7BFF {
        // m is pinned between the largest magnitude and the range bound.
        assert(ord_mag(0x7BFF) == F16_MAX_SCALED) by {
            assert(0x7BFFint % 1024 == 1023 && 0x7BFFint / 1024 == 30) by (nonlinear_arith);
            assert(pow2(29) == 536870912) by {
                lemma2_to64();
            }
        }
        assert(err == 0);
    } else {
        lemma_ord_mag_increases(fo, fo + 1);
        lemma_ord_mag_bounds(fo + 1);
        let d_down = m - 255 * ord_mag(fo);
        let d_up = 255 * ord_mag(fo + 1) - m;
        assert(2 * err <= d_down + d_up);
        let gap = 255 * (ord_mag(fo + 1) - ord_mag(fo));
        assert(d_down + d_up == gap);
        let e = fo / 1024;
        let fr = fo % 1024;
        assert(0 <= fr < 1024 && 0 <= e && 1024 * e + fr == fo) by (nonlinear_arith)
            requires
                0 <= fo <= 0x7BFE,
                e == fo / 1024,
                fr == fo % 1024,
        ;
        if fo + 1 < 1024 {
            // Subnormal spacing: one unit of 2^-24, i.e. 255 density units.
            assert(gap == 255);
        } else if fo < 1024 {
            // fo == 1023: crossing into the first normal binade keeps the
            // same spacing.
            assert(ord_mag(1024) == 1024 * pow2(0)) by {
                assert(1024int / 1024 == 1 && 1024int % 1024 == 0) by (nonlinear_arith);
            }
            assert(pow2(0) == 1) by {
                lemma2_to64();
            }
            assert(gap == 255);
        } else {
            // Normal spacing: 2^(e-1) scaled, while the magnitude itself is
            // at least 1024 * 2^(e-1), so the gap is at most m / 1024.
            assert(e >= 1);
            let p = pow2((e - 1) as nat) as int;
            lemma_pow2_pos((e - 1) as nat);
            assert(ord_mag(fo) == (1024 + fr) * p);
            if fr < 1023 {
                assert((fo + 1) / 1024 == e && (fo + 1) % 1024 == fr + 1) by (nonlinear_arith)
                    requires
                        1024 * e + fr == fo,
                        0 <= fr < 1023,
                        1 <= e,
                ;
                assert(ord_mag(fo + 1) == (1024 + fr + 1) * p);
                assert(ord_mag(fo + 1) - ord_mag(fo) == p) by (nonlinear_arith)
                    requires
                        ord_mag(fo + 1) == (1024 + fr + 1) * p,
                        ord_mag(fo) == (1024 + fr) * p,
                ;
            } else {
                assert((fo + 1) / 1024 == e + 1 && (fo + 1) % 1024 == 0) by (nonlinear_arith)
                    requires
                        1024 * e + fr == fo,
                        fr == 1023,
                        1 <= e,
                ;
                lemma_pow2_unfold(e as nat);
                assert(ord_mag(fo + 1) == 1024 * (2 * p)) by (nonlinear_arith)
                    requires
                        ord_mag(fo + 1) == 1024 * pow2(e as nat),
                        pow2(e as nat) == 2 * p,
                ;
                assert(ord_mag(fo + 1) - ord_mag(fo) == p) by (nonlinear_arith)
                    requires
                        ord_mag(fo + 1) == 1024 * (2 * p),
                        ord_mag(fo) == (1024 + 1023) * p,
                ;
            }
            // 1024 * gap <= 255 * ord_mag(fo) <= m.
            assert(1024 * (255 * p) <= 255 * ((1024 + fr) * p)) by (nonlinear_arith)
                requires
                    0 <= fr,
                    p >= 1,
            ;
            assert(2048 * err <= 1024 * gap);
            assert(2048 * err <= m);
        }
        assert(2048 * err <= 261120 + m);
    }
}

/// Every finite half-precision value is a well-formed density.
pub proof fn lemma_f16_units_wf(bits: u16)
    requires
        f16_is_finite(bits),
    ensures
        density_wf(f16_units(bits)),
{
    lemma_ord_mag_bounds(f16_ord(bits));
}

/// Bound on the distance from a unit count to the nearest half-precision
/// value: half of the local spacing, `128 + |u| / 2048` units.
pub open spec fn half_prec_slack(u: int) -> int {
    (261120 + vstd::math::abs(u) as int) / 2048
}

/// The rounding error is within [`half_prec_slack`].
pub proof fn lemma_round_err_slack(u: int)
    requires
        density_wf(u),
    ensures
        vstd::math::abs(f16_units(f16_round_bits(u)) - u) <= half_prec_slack(u),
        half_prec_slack(u) >= 0,
{
    lemma_round_err(u);
    let err = vstd::math::abs(f16_units(f16_round_bits(u)) - u) as int;
    vstd::arithmetic::div_mod::lemma_fundamental_div_mod(261120 + vstd::math::abs(u) as int, 2048);
    vstd::arithmetic::div_mod::lemma_mod_bound(261120 + vstd::math::abs(u) as int, 2048);
}

/// A unit count that is exactly a finite half-precision value rounds to a
/// pattern with that very value.
pub proof fn lemma_round_value_exact(b: u16)
    requires
        f16_is_finite(b),
    ensures
        f16_units(f16_round_bits(f16_units(b))) == f16_units(b),
{
    lemma_f16_units_wf(b);
    lemma_round_nearest(f16_units(b), b);
}

/// Rounding to the nearest half-precision value is monotone.
pub proof fn lemma_round_monotone(a: int, b: int)
    requires
        density_wf(a),
        density_wf(b),
        a <= b,
    ensures
        f16_units(f16_round_bits(a)) <= f16_units(f16_round_bits(b)),
{
    let ra = f16_units(f16_round_bits(a));
    let rb = f16_units(f16_round_bits(b));
    if ra > rb {
        lemma_round_err(a);
        lemma_round_err(b);
        lemma_round_nearest(a, f16_round_bits(b));
        lemma_round_nearest(b, f16_round_bits(a));
        // a is at least the midpoint of [rb, ra], b at most: so a == b, and a
        // single input cannot round two ways.
        assert(2 * a >= ra + rb);
        assert(2 * b <= ra + rb);
        assert(a == b);
        assert(false);
    }
}

/// There is a floor ordinal for every magnitude in the finite range.
pub proof fn lemma_floor_ord_exists(m: int)
    requires
        0 <= m <= 255 * F16_MAX_SCALED,
    ensures
        floor_pred(m, f16_floor_ord(m)),
{
    // Existence: walk down from the top ordinal.
    assert(exists|o: int| floor_pred(m, o)) by {
        lemma_floor_ord_exists_rec(m, 0x7BFF);
    }
}

proof fn lemma_floor_ord_exists_rec(m: int, top: int)
    requires
        0 <= m,
        0 <= top <= 0x7BFF,
        top == 0x7BFF || m < 255 * ord_mag(top + 1),
    ensures
        exists|o: int| floor_pred(m, o),
    decreases top,
{
    lemma_ord_mag_bounds(top);
    if 255 * ord_mag(top) <= m {
        assert(floor_pred(m, top));
    } else {
        assert(top >= 1) by {
            assert(ord_mag(0) == 0);
        }
        lemma_floor_ord_exists_rec(m, top - 1);
    }
}

/// The nearest magnitude: distance from the rounded ordinal's magnitude to
/// `m` is no more than the distance from any ordinal's magnitude to `m`.
pub proof fn lemma_round_nearest_mag(m: int)
    requires
        0 <= m <= 255 * F16_MAX_SCALED,
    ensures
        forall|o2: int|
            0 <= o2 <= 0x7BFF ==> vstd::math::abs(255 * ord_mag(round_mag_ord(m)) - m)
                <= vstd::math::abs(255 * #[trigger] ord_mag(o2) - m),
        0 <= round_mag_ord(m) <= 0x7BFF,
{
    lemma_floor_ord_exists(m);
    let fo = f16_floor_ord(m);
    let ro = round_mag_ord(m);
    lemma_ord_mag_bounds(fo);
    if fo < 0x7BFF {
        lemma_ord_mag_bounds(fo + 1);
    }
    assert forall|o2: int| 0 <= o2 <= 0x7BFF implies vstd::math::abs(
        255 * ord_mag(ro) - m,
    ) <= vstd::math::abs(255 * ord_mag(o2) - m) by {
        lemma_ord_mag_bounds(o2);
        if o2 <= fo {
            if o2 < fo {
                lemma_ord_mag_increases(o2, fo);
            }
            // mag(o2) <= mag(fo) <= m
            assert(vstd::math::abs(255 * ord_mag(o2) - m) >= m - 255 * ord_mag(fo));
        } else {
            if fo + 1 < o2 {
                lemma_ord_mag_increases(fo + 1, o2);
            }
            // m < mag(fo + 1) <= mag(o2)
            assert(vstd::math::abs(255 * ord_mag(o2) - m) >= 255 * ord_mag(fo + 1) - m);
        }
    }
}

} // verus!
