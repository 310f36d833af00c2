//! The uniform read capability every volumetric source satisfies.
//!
//! Each implementor exposes a mathematical model through spec functions
//! (`extent_spec`, `density_spec`, ...) and promises in its method contracts
//! that the executable accessors agree with that model. `density_spec` is
//! total: callers may probe any coordinate (the brick builder samples a halo
//! around each brick, which reaches outside the extent), and implementors
//! answer out-of-range probes with a defensive value instead of failing.

use crate::density::{density_wf, Density};
use crate::uvec3::UVec3;
use vstd::prelude::*;

verus! {

/// Physical per-axis scaling of the volume, carried through construction
/// unchanged. The components are single-precision bit patterns; the library
/// never computes with them.
#[derive(Clone, Copy, PartialEq, Eq, Structural, Debug)]
pub struct Scale3 {
    pub x: u32,
    pub y: u32,
    pub z: u32,
}

pub trait Grid: Sized {
    /// Extent of index space; valid coordinates lie in `[0, extent)` per
    /// axis, with the origin always at `(0, 0, 0)`.
    spec fn extent_spec(&self) -> UVec3;

    /// The density at a coordinate, in fixed-point units; total and
    /// deterministic.
    spec fn density_spec(&self, ipos: UVec3) -> int;

    /// Global minorant and majorant of the density, in units.
    spec fn min_maj_spec(&self) -> (int, int);

    /// Physical per-axis scaling.
    spec fn scaling_spec(&self) -> Scale3;

    /// Voxel count per density level.
    spec fn histogram_spec(&self) -> Seq<u32>;

    /// Smoothed histogram gradient with the (min, max) of the unsmoothed
    /// absolute gradient magnitudes.
    spec fn gradient_spec(&self) -> (Seq<i32>, u32, u32);

    /// Validity of the implementor's own state.
    spec fn inv(&self) -> bool;

    /// Index-space density lookup; total over all coordinates.
    fn lookup(&self, ipos: UVec3) -> (d: Density)
        requires
            self.inv(),
        ensures
            d.units as int == self.density_spec(ipos),
            density_wf(self.density_spec(ipos)),
    ;

    /// Global minorant and majorant.
    fn minorant_majorant(&self) -> (mm: (Density, Density))
        requires
            self.inv(),
        ensures
            mm.0.units as int == self.min_maj_spec().0,
            mm.1.units as int == self.min_maj_spec().1,
            mm.0.wf() && mm.1.wf(),
    ;

    /// Maximum of the index-space voxel box.
    fn index_extent(&self) -> (e: UVec3)
        requires
            self.inv(),
        ensures
            e == self.extent_spec(),
    ;

    /// Number of (active) voxels in this grid.
    fn num_voxels(&self) -> (n: usize)
        requires
            self.inv(),
    ;

    /// Bytes required to store this grid.
    fn size_bytes(&self) -> (n: usize)
        requires
            self.inv(),
    ;

    /// The per-axis scaling provided by the data.
    fn scaling(&self) -> (s: Scale3)
        requires
            self.inv(),
        ensures
            s == self.scaling_spec(),
    ;

    /// Histogram of the number of voxels per density level.
    fn histogram(&self) -> (h: Vec<u32>)
        requires
            self.inv(),
        ensures
            h@ == self.histogram_spec(),
    ;

    /// Smoothed discrete derivative of the histogram, then the minimum and
    /// maximum absolute magnitude of the unsmoothed derivative.
    fn histogram_gradient(&self) -> (g: (Vec<i32>, u32, u32))
        requires
            self.inv(),
        ensures
            g.0@ == self.gradient_spec().0,
            g.1 == self.gradient_spec().1,
            g.2 == self.gradient_spec().2,
    ;
}

} // verus!
