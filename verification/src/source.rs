//! The in-memory source volume assembled from decoded image slabs, and the
//! histogram statistics carried through construction.
//!
//! A source volume holds raw 16-bit samples; its density at a coordinate is
//! the sample divided by the global maximum sample, so densities span
//! `[0, 1]` on the fixed-point scale. Coordinates outside the extent read as
//! zero, which keeps lookup total (the brick builder's halo sampling relies
//! on that).

use crate::buf3d::Buf3D;
use crate::density::{Density, DENSITY_ONE};
use crate::grid::{Grid, Scale3};
use crate::uvec3::UVec3;
use vstd::prelude::*;

verus! {

// ---------------------------------------------------------------------------
// Histogram gradient.
// ---------------------------------------------------------------------------

/// A histogram the gradient derivation accepts: nonempty, with counts small
/// enough that every gradient step fits the signed 32-bit export format.
pub open spec fn histogram_wf(h: Seq<u32>) -> bool {
    h.len() >= 1 && (forall|i: int| 0 <= i < h.len() ==> h[i] <= i32::MAX)
}

/// Discrete derivative of the histogram; the first element has no left
/// neighbor and steps up from zero.
pub open spec fn raw_gradient_at(h: Seq<u32>, i: int) -> int {
    if i == 0 {
        h[0] as int
    } else {
        h[i] - h[i - 1]
    }
}

/// Division by 3 with truncation toward zero.
pub open spec fn trunc_div3(x: int) -> int {
    if x >= 0 {
        x / 3
    } else {
        -((-x) / 3)
    }
}

/// Unweighted 3-point moving average of the gradient, applied to interior
/// elements only; the endpoints lack a neighbor on one side and are copied.
pub open spec fn smoothed_gradient_at(h: Seq<u32>, i: int) -> int {
    if i == 0 || i == h.len() - 1 {
        raw_gradient_at(h, i)
    } else {
        trunc_div3(
            raw_gradient_at(h, i - 1) + raw_gradient_at(h, i) + raw_gradient_at(h, i + 1),
        )
    }
}

pub open spec fn smoothed_gradient(h: Seq<u32>) -> Seq<i32> {
    Seq::new(h.len(), |i: int| smoothed_gradient_at(h, i) as i32)
}

/// Absolute magnitude of the unsmoothed gradient step.
pub open spec fn grad_mag_at(h: Seq<u32>, i: int) -> int {
    if raw_gradient_at(h, i) >= 0 {
        raw_gradient_at(h, i)
    } else {
        -raw_gradient_at(h, i)
    }
}

/// Minimum absolute gradient magnitude over the first `n` steps.
pub open spec fn grad_min_mag(h: Seq<u32>, n: int) -> int
    decreases n,
{
    if n <= 1 {
        grad_mag_at(h, 0)
    } else {
        vstd::math::min(grad_min_mag(h, n - 1), grad_mag_at(h, n - 1))
    }
}

/// Maximum absolute gradient magnitude over the first `n` steps.
pub open spec fn grad_max_mag(h: Seq<u32>, n: int) -> int
    decreases n,
{
    if n <= 1 {
        grad_mag_at(h, 0)
    } else {
        vstd::math::max(grad_max_mag(h, n - 1), grad_mag_at(h, n - 1))
    }
}

/// Derive the smoothed histogram gradient and the (min, max) of the
/// unsmoothed absolute magnitudes.
pub fn histogram_gradient_of(h: &Vec<u32>) -> (g: (Vec<i32>, u32, u32))
    requires
        histogram_wf(h@),
    ensures
        g.0@ == smoothed_gradient(h@),
        g.1 as int == grad_min_mag(h@, h@.len() as int),
        g.2 as int == grad_max_mag(h@, h@.len() as int),
{
    let len: usize = h.len();
    let mut gradient: Vec<i32> = Vec::new();
    let mut gradmin: u32 = 0;
    let mut gradmax: u32 = 0;
    let mut i: usize = 0;
    while i < len
        invariant
            i <= len,
            len == h@.len(),
            histogram_wf(h@),
            gradient@.len() == i,
            forall|j: int| 0 <= j < i ==> gradient@[j] as int == raw_gradient_at(h@, j),
            i > 0 ==> gradmin as int == grad_min_mag(h@, i as int),
            i > 0 ==> gradmax as int == grad_max_mag(h@, i as int),
        decreases len - i,
    {
        let prev: u32 = if i == 0 {
            0
        } else {
            h[i - 1]
        };
        let cur: u32 = h[i];
        let gi: i64 = cur as i64 - prev as i64;
        assert(gi as int == raw_gradient_at(h@, i as int));
        let mag: u32 = if gi >= 0 {
            gi as u32
        } else {
            (-gi) as u32
        };
        assert(mag as int == grad_mag_at(h@, i as int));
        if i == 0 {
            gradmin = mag;
            gradmax = mag;
        } else {
            if mag < gradmin {
                gradmin = mag;
            }
            if mag > gradmax {
                gradmax = mag;
            }
        }
        gradient.push(gi as i32);
        i = i + 1;
    }
    let mut smoothed: Vec<i32> = Vec::new();
    smoothed.push(gradient[0]);
    let mut k: usize = 1;
    while k < len - 1
        invariant
            1 <= k,
            len >= 2 ==> k <= len - 1,
            len == 1 ==> k == 1,
            len == h@.len() >= 1,
            histogram_wf(h@),
            gradient@.len() == len,
            forall|j: int| 0 <= j < len ==> gradient@[j] as int == raw_gradient_at(h@, j),
            smoothed@.len() == k,
            forall|j: int| 0 <= j < k ==> smoothed@[j] as int == smoothed_gradient_at(h@, j),
        decreases len - k,
    {
        let sum: i64 = gradient[k - 1] as i64 + gradient[k] as i64 + gradient[k + 1] as i64;
        let q: i64 = if sum >= 0 {
            ((sum as u64) / 3) as i64
        } else {
            -((((-sum) as u64) / 3) as i64)
        };
        assert(q as int == trunc_div3(sum as int));
        smoothed.push(q as i32);
        k = k + 1;
    }
    if len > 1 {
        smoothed.push(gradient[len - 1]);
    }
    proof {
        assert forall|j: int| 0 <= j < len implies smoothed@[j] == smoothed_gradient(h@)[j] by {
            assert(smoothed@[j] as int == smoothed_gradient_at(h@, j));
        }
        assert(smoothed@ =~= smoothed_gradient(h@));
    }
    (smoothed, gradmin, gradmax)
}

// ---------------------------------------------------------------------------
// Sample statistics.
// ---------------------------------------------------------------------------

/// Number of occurrences of `v` in `s`.
pub open spec fn count_of(s: Seq<u16>, v: u16) -> int
    decreases s.len(),
{
    if s.len() == 0 {
        0
    } else {
        count_of(s.drop_last(), v) + if s.last() == v {
            1int
        } else {
            0int
        }
    }
}

/// Minimum sample of the first `n`, starting from the empty default
/// `u16::MAX`.
pub open spec fn min_sample(s: Seq<u16>, n: int) -> int
    decreases n,
{
    if n <= 0 {
        u16::MAX as int
    } else {
        vstd::math::min(min_sample(s, n - 1), s[n - 1] as int)
    }
}

/// Maximum sample of the first `n`, starting from the empty default `0`.
pub open spec fn max_sample(s: Seq<u16>, n: int) -> int
    decreases n,
{
    if n <= 0 {
        0
    } else {
        vstd::math::max(max_sample(s, n - 1), s[n - 1] as int)
    }
}

/// Histogram, minimum and maximum of a slab of raw samples. `levels` is the
/// number of representable density levels; every sample must lie below it.
pub fn sample_stats(samples: &Vec<u16>, levels: usize) -> (r: (Vec<u32>, u16, u16))
    requires
        forall|i: int| 0 <= i < samples@.len() ==> (samples@[i] as int) < levels,
        samples@.len() <= i32::MAX,
        levels <= 0x10000,
    ensures
        r.0@.len() == levels,
        forall|d: int| 0 <= d < levels ==> r.0@[d] as int == count_of(samples@, (d as u16)),
        r.1 as int == min_sample(samples@, samples@.len() as int),
        r.2 as int == max_sample(samples@, samples@.len() as int),
{
    let mut histogram: Vec<u32> = Vec::new();
    while histogram.len() < levels
        invariant
            histogram@.len() <= levels,
            forall|d: int| 0 <= d < histogram@.len() ==> histogram@[d] == 0,
        decreases levels - histogram@.len(),
    {
        histogram.push(0);
    }
    let mut min: u16 = 0xFFFF;
    let mut max: u16 = 0;
    let mut i: usize = 0;
    proof {
        assert forall|d: int| 0 <= d < levels implies #[trigger] count_of(
            samples@.take(0),
            (d as u16),
        ) == 0 by {
            assert(samples@.take(0).len() == 0);
        }
    }
    while i < samples.len()
        invariant
            i <= samples@.len() <= i32::MAX,
            levels <= 0x10000,
            forall|j: int| 0 <= j < samples@.len() ==> (samples@[j] as int) < levels,
            histogram@.len() == levels,
            forall|d: int|
                0 <= d < levels ==> histogram@[d] as int == count_of(
                    samples@.take(i as int),
                    (d as u16),
                ),
            min as int == min_sample(samples@, i as int),
            max as int == max_sample(samples@, i as int),
        decreases samples@.len() - i,
    {
        let x: u16 = samples[i];
        proof {
            lemma_count_bounded(samples@.take(i as int), (x as u16));
            assert(samples@.take(i as int + 1).drop_last() =~= samples@.take(i as int));
            assert forall|d: int| 0 <= d < levels implies #[trigger] count_of(
                samples@.take(i as int + 1),
                (d as u16),
            ) == count_of(samples@.take(i as int), (d as u16)) + (if d == x as int {
                1int
            } else {
                0int
            }) by {
                assert(samples@.take(i as int + 1).last() == samples@[i as int]);
            }
        }
        let c: u32 = histogram[x as usize];
        histogram.set(x as usize, c + 1);
        if x < min {
            min = x;
        }
        if x > max {
            max = x;
        }
        i = i + 1;
    }
    proof {
        assert(samples@.take(samples@.len() as int) =~= samples@);
    }
    (histogram, min, max)
}

/// A count of occurrences never exceeds the sequence length.
proof fn lemma_count_bounded(s: Seq<u16>, v: u16)
    ensures
        0 <= count_of(s, v) <= s.len(),
    decreases s.len(),
{
    if s.len() > 0 {
        lemma_count_bounded(s.drop_last(), v);
    }
}

// ---------------------------------------------------------------------------
// The assembled source volume.
// ---------------------------------------------------------------------------

/// Why two slabs cannot be merged.
#[derive(Clone, Copy, PartialEq, Eq, Structural, Debug)]
pub enum MergeError {
    /// The slabs' x/y strides differ.
    StrideMismatch,
    /// The histograms cover a different number of density levels.
    HistogramMismatch,
    /// A merged histogram count would exceed the signed 32-bit export range.
    CountOverflow,
}

/// A dense volume of raw 16-bit samples with its running statistics.
pub struct DicomDataInternal {
    pub data: Buf3D<u16>,
    pub histogram: Vec<u32>,
    pub min: u16,
    pub max: u16,
    pub scaling: Scale3,
}

/// Density units of a raw sample against the global maximum:
/// `raw / max` rounded (half up) to the fixed-point scale.
pub open spec fn ratio_units(raw: int, max: int) -> int {
    (2 * raw * DENSITY_ONE + max) / (2 * max)
}

impl DicomDataInternal {
    pub open spec fn source_density(self, ipos: UVec3) -> int {
        if !self.data.in_bounds(ipos) {
            0
        } else {
            ratio_units(self.data.data@[self.data.index_of(ipos)] as int, self.max as int)
        }
    }
}

impl Grid for DicomDataInternal {
    open spec fn extent_spec(&self) -> UVec3 {
        self.data.stride
    }

    open spec fn density_spec(&self, ipos: UVec3) -> int {
        self.source_density(ipos)
    }

    open spec fn min_maj_spec(&self) -> (int, int) {
        (0, DENSITY_ONE as int)
    }

    open spec fn scaling_spec(&self) -> Scale3 {
        self.scaling
    }

    open spec fn histogram_spec(&self) -> Seq<u32> {
        self.histogram@
    }

    open spec fn gradient_spec(&self) -> (Seq<i32>, u32, u32) {
        (
            smoothed_gradient(self.histogram@),
            grad_min_mag(self.histogram@, self.histogram@.len() as int) as u32,
            grad_max_mag(self.histogram@, self.histogram@.len() as int) as u32,
        )
    }

    open spec fn inv(&self) -> bool {
        &&& self.data.wf()
        &&& self.max >= 1
        &&& forall|i: int| 0 <= i < self.data.data@.len() ==> self.data.data@[i] <= self.max
        &&& histogram_wf(self.histogram@)
    }

    fn lookup(&self, ipos: UVec3) -> (d: Density) {
        if ipos.z >= self.data.stride.z || ipos.y >= self.data.stride.y || ipos.x
            >= self.data.stride.x {
            return Density::zero();
        }
        let index: usize = self.data.calculate_index(ipos);
        let raw: u16 = self.data.data[index];
        proof {
            assert(raw as int * (DENSITY_ONE as int) <= 65535 * (DENSITY_ONE as int))
                by (nonlinear_arith)
                requires
                    0 <= raw as int <= 65535,
            ;
        }
        let num: u64 = 2 * ((raw as u64) * (DENSITY_ONE as u64)) + (self.max as u64);
        let den: u64 = 2 * (self.max as u64);
        let q: u64 = num / den;
        proof {
            let r = raw as int;
            let m = self.max as int;
            let d1 = DENSITY_ONE as int;
            assert((2 * r * d1 + m) / (2 * m) <= d1 && 0 <= (2 * r * d1 + m) / (2 * m))
                by (nonlinear_arith)
                requires
                    0 <= r <= m,
                    1 <= m,
                    d1 >= 1,
            ;
        }
        Density { units: q as i64 }
    }

    fn minorant_majorant(&self) -> (mm: (Density, Density)) {
        (Density::zero(), Density::new(DENSITY_ONE))
    }

    fn index_extent(&self) -> (e: UVec3) {
        self.data.stride
    }

    fn num_voxels(&self) -> (n: usize)
        ensures
            n == self.data.data@.len(),
            n as int == self.data.stride.volume(),
    {
        self.data.data.len()
    }

    fn size_bytes(&self) -> (n: usize)
        ensures
            2 * self.data.data@.len() + 4 * self.histogram@.len() <= usize::MAX ==> n as int == 2
                * self.data.data@.len() + 4 * self.histogram@.len(),
    {
        let samples = self.data.data.len();
        let bins = self.histogram.len();
        if samples <= usize::MAX / 2 && bins <= usize::MAX / 4 && 2 * samples <= usize::MAX - 4
            * bins {
            2 * samples + 4 * bins
        } else {
            usize::MAX
        }
    }

    fn scaling(&self) -> (s: Scale3) {
        self.scaling
    }

    fn histogram(&self) -> (h: Vec<u32>) {
        let h = self.histogram.clone();
        proof {
            assert(h@ =~= self.histogram@);
        }
        h
    }

    fn histogram_gradient(&self) -> (g: (Vec<i32>, u32, u32)) {
        histogram_gradient_of(&self.histogram)
    }
}

impl DicomDataInternal {
    /// Merge the next decoded slab into this volume: depth-concatenate the
    /// sample data, add the histograms pointwise, widen the sample bounds and
    /// adopt the newcomer's scaling. Nothing is changed when the slabs do not
    /// fit together.
    pub fn merge_slab(&mut self, other: &mut DicomDataInternal) -> (r: Result<(), MergeError>)
        requires
            old(self).inv(),
            old(other).inv(),
            old(self).data.stride.z + old(other).data.stride.z <= u32::MAX,
        ensures
            r is Ok ==> {
                &&& final(self).inv()
                &&& final(self).data.stride == (UVec3 {
                    x: old(self).data.stride.x,
                    y: old(self).data.stride.y,
                    z: (old(self).data.stride.z + old(other).data.stride.z) as u32,
                })
                &&& final(self).data.data@ == old(self).data.data@ + old(other).data.data@
                &&& final(self).histogram@.len() == old(self).histogram@.len()
                &&& forall|i: int|
                    0 <= i < final(self).histogram@.len() ==> final(self).histogram@[i] as int
                        == old(self).histogram@[i] + old(other).histogram@[i]
                &&& final(self).min as int == vstd::math::min(
                    old(self).min as int,
                    old(other).min as int,
                )
                &&& final(self).max as int == vstd::math::max(
                    old(self).max as int,
                    old(other).max as int,
                )
                &&& final(self).scaling == old(other).scaling
            },
            r is Err ==> *final(self) == *old(self) && *final(other) == *old(other),
            r == Err::<(), MergeError>(MergeError::StrideMismatch) <==> (old(self).data.stride.x
                != old(other).data.stride.x || old(self).data.stride.y != old(
                other,
            ).data.stride.y),
            old(self).data.stride.x == old(other).data.stride.x && old(self).data.stride.y == old(
                other,
            ).data.stride.y ==> (r == Err::<(), MergeError>(MergeError::HistogramMismatch) <==> old(
                self,
            ).histogram@.len() != old(other).histogram@.len()),
            old(self).data.stride.x == old(other).data.stride.x && old(self).data.stride.y == old(
                other,
            ).data.stride.y && old(self).histogram@.len() == old(other).histogram@.len() ==> (
            r is Ok <==> forall|j: int|
                0 <= j < old(self).histogram@.len() ==> old(self).histogram@[j] + old(
                    other,
                ).histogram@[j] <= i32::MAX),
    {
        if self.data.stride.x != other.data.stride.x || self.data.stride.y
            != other.data.stride.y {
            return Err(MergeError::StrideMismatch);
        }
        if self.histogram.len() != other.histogram.len() {
            return Err(MergeError::HistogramMismatch);
        }
        // Build the merged histogram first so a failed merge changes nothing.
        let bins: usize = self.histogram.len();
        let mut merged: Vec<u32> = Vec::new();
        let mut i: usize = 0;
        while i < bins
            invariant
                i <= bins,
                bins == self.histogram@.len() == other.histogram@.len(),
                old(self).data.stride.x == old(other).data.stride.x,
                old(self).data.stride.y == old(other).data.stride.y,
                old(self).histogram@.len() == old(other).histogram@.len(),
                merged@.len() == i,
                forall|j: int|
                    0 <= j < i ==> merged@[j] as int == self.histogram@[j] + other.histogram@[j],
                forall|j: int| 0 <= j < i ==> merged@[j] <= i32::MAX,
                *self == *old(self),
                *other == *old(other),
            decreases bins - i,
        {
            let sum: u64 = (self.histogram[i] as u64) + (other.histogram[i] as u64);
            if sum > 0x7FFFFFFF {
                return Err(MergeError::CountOverflow);
            }
            merged.push(sum as u32);
            i = i + 1;
        }
        proof {
            assert forall|j: int| 0 <= j < old(self).histogram@.len() implies old(
                self,
            ).histogram@[j] + old(other).histogram@[j] <= i32::MAX by {
                assert(merged@[j] <= i32::MAX);
                assert(merged@[j] as int == self.histogram@[j] + other.histogram@[j]);
            }
        }
        let ok = self.data.append_depth_slice(&mut other.data);
        assert(ok);
        self.histogram = merged;
        if other.min < self.min {
            self.min = other.min;
        }
        if other.max > self.max {
            self.max = other.max;
        }
        self.scaling = other.scaling;
        Ok(())
    }
}

} // verus!
