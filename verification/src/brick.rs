//! The brick grid: a sparse, multi-resolution compression of a dense volume.
//!
//! Construction partitions the source into 8x8x8 bricks. Every brick stores
//! its local density range, taken over the brick dilated by a 2-voxel halo,
//! as a packed pair of half-precision values. A brick whose (pre-encoding)
//! minimum and maximum coincide is homogeneous: it stores the all-zero
//! indirection word and no atlas data. Any other brick claims the next atlas
//! slot and stores one 8-bit quantized sample per voxel, normalized against
//! the re-decoded range.
//!
//! Atlas slot `(0, 0, 0)` is permanently reserved: allocation starts at slot
//! one, so the all-zero indirection word is unambiguously the homogeneous
//! sentinel and lookup can short-circuit on it.

use crate::buf3d::Buf3D;
use crate::density::{density_wf, lemma_f16_units_wf, lemma_round_monotone, Density};
use crate::grid::{Grid, Scale3};
use crate::pack::{ceil_div, decode_ptr, decode_range, decode_voxel, dequantize_byte,
    div_round_up, encode_ptr, encode_range, encode_range_spec, encode_voxel,
    lemma_ptr_word_roundtrip, ptr_word, ptr_x, ptr_y, ptr_z, quantize_byte, range_hi_bits,
    range_lo_bits, range_word_finite, decoded_hi, decoded_lo, MAX_BRICKS, NUM_MIPMAPS};
use crate::uvec3::UVec3;
use vstd::prelude::*;

verus! {

/// Construction failed fatally; there is no fallback encoding.
#[derive(Clone, Copy, PartialEq, Eq, Structural, Debug)]
pub enum ConstructError {
    /// Some axis needs at least 1024 bricks, beyond the 10-bit pointer field.
    AddressingOverflow,
}

pub struct BrickGrid {
    pub brick_count: UVec3,
    pub min_maj: (Density, Density),
    pub brick_counter: usize,
    pub indirection: Buf3D<u32>,
    pub range: Buf3D<u32>,
    pub atlas: Buf3D<u8>,
    pub range_mipmaps: Vec<Buf3D<u32>>,
    pub scaling: Scale3,
    pub histogram: Vec<u32>,
    pub histogram_gradient: (Vec<i32>, u32, u32),
}

// ---------------------------------------------------------------------------
// Brick-space geometry.
// ---------------------------------------------------------------------------

/// Bricks along one axis: voxels rounded up to bricks, then rounded up to a
/// multiple of `2^NUM_MIPMAPS` so every pyramid level divides evenly.
pub open spec fn axis_bricks(e: int) -> int {
    8 * ceil_div(ceil_div(e, 8), 8)
}

/// Coordinate of a linear index under a (column) extent; the same row-major
/// layout as [`Buf3D`], but total in the index.
pub open spec fn lin_coord(counts: UVec3, j: int) -> UVec3 {
    UVec3 {
        x: (j % (counts.x as int)) as u32,
        y: ((j / (counts.x as int)) % (counts.y as int)) as u32,
        z: (j / (counts.x as int * counts.y as int)) as u32,
    }
}

/// Linear index under an extent.
pub open spec fn lin_index(counts: UVec3, c: UVec3) -> int {
    c.z * (counts.x as int * counts.y as int) + c.y * (counts.x as int) + c.x
}

/// The voxel offset inside an 8x8x8 brick with linear offset `k`, x fastest.
pub open spec fn off8(k: int) -> (int, int, int) {
    (k % 8, (k / 8) % 8, k / 64)
}

/// The `k`-th voxel of the brick at `bcoord` in source index space.
pub open spec fn brick_voxel(bcoord: UVec3, k: int) -> UVec3 {
    UVec3 {
        x: (bcoord.x * 8 + off8(k).0) as u32,
        y: (bcoord.y * 8 + off8(k).1) as u32,
        z: (bcoord.z * 8 + off8(k).2) as u32,
    }
}

// ---------------------------------------------------------------------------
// The dilated range of a brick.
// ---------------------------------------------------------------------------

/// Offset of the `k`-th sample of the dilated brick (a 12x12x12 cube with a
/// 2-voxel halo on every face), x fastest.
pub open spec fn dil_offset(k: int) -> (int, int, int) {
    (k % 12 - 2, (k / 12) % 12 - 2, k / 144 - 2)
}

/// Index-space coordinate of the `k`-th dilated sample, with the unsigned
/// wrap-around of coordinates that step below zero: such coordinates are far
/// outside any extent and read the source's defensive value.
pub open spec fn wrap_u32(v: int) -> u32 {
    (v % 0x100000000) as u32
}

pub open spec fn dil_coord(bcoord: UVec3, k: int) -> UVec3 {
    UVec3 {
        x: wrap_u32(bcoord.x * 8 + dil_offset(k).0),
        y: wrap_u32(bcoord.y * 8 + dil_offset(k).1),
        z: wrap_u32(bcoord.z * 8 + dil_offset(k).2),
    }
}

pub open spec fn dil_sample<G: Grid>(from: G, bcoord: UVec3, k: int) -> int {
    from.density_spec(dil_coord(bcoord, k))
}

/// Minimum of the first `k + 1` dilated samples.
pub open spec fn dil_min<G: Grid>(from: G, bcoord: UVec3, k: int) -> int
    decreases k,
{
    if k <= 0 {
        dil_sample(from, bcoord, 0)
    } else {
        vstd::math::min(dil_min(from, bcoord, k - 1), dil_sample(from, bcoord, k))
    }
}

/// Maximum of the first `k + 1` dilated samples.
pub open spec fn dil_max<G: Grid>(from: G, bcoord: UVec3, k: int) -> int
    decreases k,
{
    if k <= 0 {
        dil_sample(from, bcoord, 0)
    } else {
        vstd::math::max(dil_max(from, bcoord, k - 1), dil_sample(from, bcoord, k))
    }
}

/// Local minimum over the whole dilated brick.
pub open spec fn brick_min<G: Grid>(from: G, bcoord: UVec3) -> int {
    dil_min(from, bcoord, 1727)
}

/// Local maximum over the whole dilated brick.
pub open spec fn brick_max<G: Grid>(from: G, bcoord: UVec3) -> int {
    dil_max(from, bcoord, 1727)
}

/// A brick is homogeneous when its dilated range is a single value.
pub open spec fn brick_homog<G: Grid>(from: G, bcoord: UVec3) -> bool {
    brick_min(from, bcoord) == brick_max(from, bcoord)
}

/// Number of heterogeneous (allocated) bricks among the first `n` in scan
/// order.
pub open spec fn alloc_count<G: Grid>(from: G, counts: UVec3, n: int) -> int
    decreases n,
{
    if n <= 0 {
        0
    } else {
        alloc_count(from, counts, n - 1) + if brick_homog(from, lin_coord(counts, n - 1)) {
            0int
        } else {
            1int
        }
    }
}

impl BrickGrid {
    /// Number of bricks in the grid.
    pub open spec fn num_bricks(self) -> int {
        self.brick_count.volume()
    }

    /// Structural well-formedness: buffers sized and strided consistently,
    /// every range word decodable, every indirection pointer inside the atlas.
    pub open spec fn wf(self) -> bool {
        let bc = self.brick_count;
        &&& self.indirection.wf() && self.indirection.stride == bc
        &&& self.range.wf() && self.range.stride == bc
        &&& self.atlas.wf()
        &&& self.atlas.stride.x == 8 * bc.x
        &&& self.atlas.stride.y == 8 * bc.y
        &&& self.atlas.stride.z % 8 == 0
        &&& bc.x % 8 == 0 && bc.y % 8 == 0 && bc.z % 8 == 0
        &&& bc.x < MAX_BRICKS && bc.y < MAX_BRICKS && bc.z < MAX_BRICKS
        &&& self.atlas.stride.z <= 8 * bc.z + 8
        &&& self.min_maj.0.wf() && self.min_maj.1.wf()
        &&& self.range_mipmaps@.len() == NUM_MIPMAPS
        &&& self.range_mipmaps@[0].wf() && self.range_mipmaps@[0].stride == (UVec3 {
            x: (bc.x / 2) as u32,
            y: (bc.y / 2) as u32,
            z: (bc.z / 2) as u32,
        })
        &&& self.range_mipmaps@[1].wf() && self.range_mipmaps@[1].stride == (UVec3 {
            x: (bc.x / 4) as u32,
            y: (bc.y / 4) as u32,
            z: (bc.z / 4) as u32,
        })
        &&& self.range_mipmaps@[2].wf() && self.range_mipmaps@[2].stride == (UVec3 {
            x: (bc.x / 8) as u32,
            y: (bc.y / 8) as u32,
            z: (bc.z / 8) as u32,
        })
        &&& (forall|j: int|
            0 <= j < self.num_bricks() ==> range_word_finite(#[trigger] self.range.data@[j])
                && decoded_lo(self.range.data@[j]) <= decoded_hi(self.range.data@[j]))
        &&& (forall|j: int|
            0 <= j < self.num_bricks() && #[trigger] self.indirection.data@[j] != 0 ==> {
                let iw = self.indirection.data@[j];
                &&& ptr_x(iw) < bc.x
                &&& ptr_y(iw) < bc.y
                &&& 8 * ptr_z(iw) + 8 <= self.atlas.stride.z
            })
        &&& (self.brick_counter == 0 || 512 * (self.brick_counter + 1) <= self.atlas.data@.len())
    }

    /// Index extent: brick count times brick size per axis.
    pub open spec fn extent_of(self) -> UVec3 {
        UVec3 {
            x: (8 * self.brick_count.x) as u32,
            y: (8 * self.brick_count.y) as u32,
            z: (8 * self.brick_count.z) as u32,
        }
    }

    /// Clamp a probe into the extent (the defensive reading of out-of-range
    /// lookups; the extent is nonempty whenever the grid has bricks).
    pub open spec fn clamp_coord(self, ipos: UVec3) -> UVec3 {
        UVec3 {
            x: if ipos.x < 8 * self.brick_count.x {
                ipos.x
            } else {
                (8 * self.brick_count.x - 1) as u32
            },
            y: if ipos.y < 8 * self.brick_count.y {
                ipos.y
            } else {
                (8 * self.brick_count.y - 1) as u32
            },
            z: if ipos.z < 8 * self.brick_count.z {
                ipos.z
            } else {
                (8 * self.brick_count.z - 1) as u32
            },
        }
    }

    /// The density the grid decodes at a coordinate: resolve the brick's
    /// indirection and range words; a homogeneous brick reads as its stored
    /// minimum, any other brick dequantizes its atlas byte.
    pub open spec fn grid_density(self, ipos: UVec3) -> int {
        if self.brick_count.x == 0 || self.brick_count.y == 0 || self.brick_count.z == 0 {
            0
        } else {
            let p = self.clamp_coord(ipos);
            let bcoord = UVec3 { x: (p.x / 8) as u32, y: (p.y / 8) as u32, z: (p.z / 8) as u32 };
            let j = lin_index(self.brick_count, bcoord);
            let iw = self.indirection.data@[j];
            let rw = self.range.data@[j];
            if iw == 0 {
                decoded_lo(rw)
            } else {
                let voxel = UVec3 {
                    x: (8 * ptr_x(iw) + p.x % 8) as u32,
                    y: (8 * ptr_y(iw) + p.y % 8) as u32,
                    z: (8 * ptr_z(iw) + p.z % 8) as u32,
                };
                dequantize_byte(
                    self.atlas.data@[self.atlas.index_of(voxel)] as int,
                    decoded_lo(rw),
                    decoded_hi(rw),
                )
            }
        }
    }
}

impl BrickGrid {
    /// Exported size formula: 4 bytes per brick for the indirection table,
    /// 4 per brick for the range table, 512 atlas bytes per allocated brick,
    /// and 4 bytes per cell of every pyramid level.
    pub open spec fn size_bytes_spec(self) -> int {
        4 * self.num_bricks() + 4 * self.num_bricks() + 512 * self.brick_counter
            + 4 * self.range_mipmaps@[0].data@.len() + 4 * self.range_mipmaps@[1].data@.len() + 4
            * self.range_mipmaps@[2].data@.len()
    }

    /// Every byte-count component of a well-formed grid stays far below the
    /// 64-bit range.
    pub proof fn lemma_size_bounds(self)
        requires
            self.wf(),
        ensures
            0 <= self.num_bricks() < 0x40000000,
            0 <= self.brick_counter < 0x40000000,
            self.range_mipmaps@[0].data@.len() < 0x8000000,
            self.range_mipmaps@[1].data@.len() < 0x8000000,
            self.range_mipmaps@[2].data@.len() < 0x8000000,
    {
        let bc = self.brick_count;
        assert(0 <= bc.volume() < 0x40000000) by (nonlinear_arith)
            requires
                bc.x < 1024 && bc.y < 1024 && bc.z < 1024,
        ;
        assert(self.atlas.stride.volume() < 0x8000000000) by (nonlinear_arith)
            requires
                self.atlas.stride.x == 8 * bc.x,
                self.atlas.stride.y == 8 * bc.y,
                self.atlas.stride.z <= 8 * bc.z + 8,
                bc.x < 1024 && bc.y < 1024 && bc.z < 1024,
        ;
        if self.brick_counter != 0 {
            assert(512 * (self.brick_counter + 1) <= self.atlas.data@.len());
        }
        vstd::arithmetic::div_mod::lemma_div_is_ordered(bc.x as int, 1023, 2);
        vstd::arithmetic::div_mod::lemma_div_is_ordered(bc.y as int, 1023, 2);
        vstd::arithmetic::div_mod::lemma_div_is_ordered(bc.z as int, 1023, 2);
        vstd::arithmetic::div_mod::lemma_div_is_ordered(bc.x as int, 1023, 4);
        vstd::arithmetic::div_mod::lemma_div_is_ordered(bc.y as int, 1023, 4);
        vstd::arithmetic::div_mod::lemma_div_is_ordered(bc.z as int, 1023, 4);
        vstd::arithmetic::div_mod::lemma_div_is_ordered(bc.x as int, 1023, 8);
        vstd::arithmetic::div_mod::lemma_div_is_ordered(bc.y as int, 1023, 8);
        vstd::arithmetic::div_mod::lemma_div_is_ordered(bc.z as int, 1023, 8);
        let m0 = self.range_mipmaps@[0].stride;
        assert(0 <= m0.volume() < 0x8000000) by (nonlinear_arith)
            requires
                m0.x <= 511 && m0.y <= 511 && m0.z <= 511,
        ;
        let m1 = self.range_mipmaps@[1].stride;
        assert(0 <= m1.volume() < 0x8000000) by (nonlinear_arith)
            requires
                m1.x <= 511 && m1.y <= 511 && m1.z <= 511,
        ;
        let m2 = self.range_mipmaps@[2].stride;
        assert(0 <= m2.volume() < 0x8000000) by (nonlinear_arith)
            requires
                m2.x <= 511 && m2.y <= 511 && m2.z <= 511,
        ;
    }
}

impl Grid for BrickGrid {
    open spec fn extent_spec(&self) -> UVec3 {
        self.extent_of()
    }

    open spec fn density_spec(&self, ipos: UVec3) -> int {
        self.grid_density(ipos)
    }

    open spec fn min_maj_spec(&self) -> (int, int) {
        (self.min_maj.0.units as int, self.min_maj.1.units as int)
    }

    open spec fn scaling_spec(&self) -> Scale3 {
        self.scaling
    }

    open spec fn histogram_spec(&self) -> Seq<u32> {
        self.histogram@
    }

    open spec fn gradient_spec(&self) -> (Seq<i32>, u32, u32) {
        (self.histogram_gradient.0@, self.histogram_gradient.1, self.histogram_gradient.2)
    }

    open spec fn inv(&self) -> bool {
        self.wf()
    }

    fn lookup(&self, ipos: UVec3) -> (d: Density) {
        let bc = self.brick_count;
        if bc.x == 0 || bc.y == 0 || bc.z == 0 {
            return Density::zero();
        }
        // Clamp into the extent, then split into brick and in-brick parts.
        let px: u32 = if ipos.x < 8 * bc.x {
            ipos.x
        } else {
            8 * bc.x - 1
        };
        let py: u32 = if ipos.y < 8 * bc.y {
            ipos.y
        } else {
            8 * bc.y - 1
        };
        let pz: u32 = if ipos.z < 8 * bc.z {
            ipos.z
        } else {
            8 * bc.z - 1
        };
        let bcoord = UVec3 { x: px / 8, y: py / 8, z: pz / 8 };
        let j: usize = self.indirection.calculate_index(bcoord);
        proof {
            assert(j == lin_index(bc, bcoord));
        }
        let iw: u32 = self.indirection.data[j];
        let rw: u32 = self.range.data[j];
        let (lo, hi) = decode_range(rw);
        proof {
            lemma_f16_units_wf(range_lo_bits(rw));
            lemma_f16_units_wf(range_hi_bits(rw));
        }
        if iw == 0 {
            // Homogeneous brick: no atlas data; the stored minimum is the
            // brick's single density.
            return lo;
        }
        let ptr = decode_ptr(iw);
        let voxel = UVec3 { x: 8 * ptr.x + px % 8, y: 8 * ptr.y + py % 8, z: 8 * ptr.z + pz % 8 };
        let ai: usize = self.atlas.calculate_index(voxel);
        let byte: u8 = self.atlas.data[ai];
        decode_voxel(byte, lo, hi)
    }

    fn minorant_majorant(&self) -> (mm: (Density, Density)) {
        self.min_maj
    }

    fn index_extent(&self) -> (e: UVec3) {
        UVec3 {
            x: 8 * self.brick_count.x,
            y: 8 * self.brick_count.y,
            z: 8 * self.brick_count.z,
        }
    }

    fn num_voxels(&self) -> (n: usize)
        ensures
            n == 512 * self.brick_counter,
    {
        512 * self.brick_counter
    }

    fn size_bytes(&self) -> (n: usize)
        ensures
            self.size_bytes_spec() <= usize::MAX ==> n as int == self.size_bytes_spec(), {
        proof {
            self.lemma_size_bounds();
        }
        let bricks: u64 = self.indirection.data.len() as u64;
        let mips: u64 = 4 * (self.range_mipmaps[0].data.len() as u64) + 4
            * (self.range_mipmaps[1].data.len() as u64) + 4
            * (self.range_mipmaps[2].data.len() as u64);
        let total: u64 = 4 * bricks + 4 * bricks + 512 * (self.brick_counter as u64) + mips;
        if total <= (usize::MAX as u64) {
            total as usize
        } else {
            usize::MAX
        }
    }

    fn scaling(&self) -> (s: Scale3) {
        self.scaling
    }

    fn histogram(&self) -> (h: Vec<u32>) {
        let h = self.histogram.clone();
        proof {
            assert(h@ =~= self.histogram@);
        }
        h
    }

    fn histogram_gradient(&self) -> (g: (Vec<i32>, u32, u32)) {
        let g0 = self.histogram_gradient.0.clone();
        proof {
            assert(g0@ =~= self.histogram_gradient.0@);
        }
        (g0, self.histogram_gradient.1, self.histogram_gradient.2)
    }
}

impl BrickGrid {
    pub fn ind_x(&self) -> (r: u32)
        ensures
            r == self.indirection.stride.x,
    {
        self.indirection.stride.x
    }

    pub fn ind_y(&self) -> (r: u32)
        ensures
            r == self.indirection.stride.y,
    {
        self.indirection.stride.y
    }

    pub fn ind_z(&self) -> (r: u32)
        ensures
            r == self.indirection.stride.z,
    {
        self.indirection.stride.z
    }

    pub fn range_x(&self) -> (r: u32)
        ensures
            r == self.range.stride.x,
    {
        self.range.stride.x
    }

    pub fn range_y(&self) -> (r: u32)
        ensures
            r == self.range.stride.y,
    {
        self.range.stride.y
    }

    pub fn range_z(&self) -> (r: u32)
        ensures
            r == self.range.stride.z,
    {
        self.range.stride.z
    }

    pub fn atlas_x(&self) -> (r: u32)
        ensures
            r == self.atlas.stride.x,
    {
        self.atlas.stride.x
    }

    pub fn atlas_y(&self) -> (r: u32)
        ensures
            r == self.atlas.stride.y,
    {
        self.atlas.stride.y
    }

    pub fn atlas_z(&self) -> (r: u32)
        ensures
            r == self.atlas.stride.z,
    {
        self.atlas.stride.z
    }

    /// Physical scaling along x, as a single-precision bit pattern.
    pub fn scale_x(&self) -> (r: u32)
        ensures
            r == self.scaling.x,
    {
        self.scaling.x
    }

    /// Physical scaling along y, as a single-precision bit pattern.
    pub fn scale_y(&self) -> (r: u32)
        ensures
            r == self.scaling.y,
    {
        self.scaling.y
    }

    /// Physical scaling along z, as a single-precision bit pattern.
    pub fn scale_z(&self) -> (r: u32)
        ensures
            r == self.scaling.z,
    {
        self.scaling.z
    }

    pub fn histogram_gradient_min(&self) -> (r: u32)
        ensures
            r == self.histogram_gradient.1,
    {
        self.histogram_gradient.1
    }

    pub fn histogram_gradient_max(&self) -> (r: u32)
        ensures
            r == self.histogram_gradient.2,
    {
        self.histogram_gradient.2
    }

    /// The raw indirection words, for direct export.
    pub fn indirection_data(&self) -> (r: &Vec<u32>)
        ensures
            r@ == self.indirection.data@,
    {
        &self.indirection.data
    }

    /// The raw range words, for direct export.
    pub fn range_data(&self) -> (r: &Vec<u32>)
        ensures
            r@ == self.range.data@,
    {
        &self.range.data
    }

    /// The raw quantized atlas bytes, for direct export.
    pub fn atlas_data(&self) -> (r: &Vec<u8>)
        ensures
            r@ == self.atlas.data@,
    {
        &self.atlas.data
    }
}

// ---------------------------------------------------------------------------
// What construction guarantees, brick by brick.
// ---------------------------------------------------------------------------

/// Every range word decodes to an ordered pair of finite half-precision
/// values.
pub open spec fn range_words_ok(s: Seq<u32>) -> bool {
    forall|j: int|
        0 <= j < s.len() ==> range_word_finite(#[trigger] s[j]) && decoded_lo(s[j]) <= decoded_hi(
            s[j],
        )
}

/// Atlas coordinate of the `k`-th voxel of the atlas brick at `pc`.
pub open spec fn atlas_cell_coord(pc: UVec3, k: int) -> UVec3 {
    UVec3 {
        x: (8 * pc.x + off8(k).0) as u32,
        y: (8 * pc.y + off8(k).1) as u32,
        z: (8 * pc.z + off8(k).2) as u32,
    }
}

/// Linear atlas index of that voxel.
pub open spec fn atlas_cell_index(astride: UVec3, pc: UVec3, k: int) -> int {
    lin_index(astride, atlas_cell_coord(pc, k))
}

/// The stored words and atlas cells of the `j`-th brick describe the source:
/// the range word encodes the dilated range; a homogeneous brick stores the
/// zero indirection word; any other brick points at its claimed atlas slot,
/// whose 512 cells hold the quantized samples.
pub open spec fn brick_cells_ok<G: Grid>(
    from: G,
    bc: UVec3,
    ind: Seq<u32>,
    rng: Seq<u32>,
    atl: Seq<u8>,
    astride: UVec3,
    j: int,
) -> bool {
    let bcoord = lin_coord(bc, j);
    let dmin = brick_min(from, bcoord);
    let dmax = brick_max(from, bcoord);
    &&& rng[j] == encode_range_spec(dmin, dmax)
    &&& density_wf(dmin) && density_wf(dmax) && dmin <= dmax
    &&& (brick_homog(from, bcoord) ==> ind[j] == 0)
    &&& (!brick_homog(from, bcoord) ==> {
        let slot = 1 + alloc_count(from, bc, j);
        let pc = lin_coord(bc, slot);
        &&& ind[j] == ptr_word(pc)
        &&& ind[j] != 0
        &&& (forall|k: int|
            0 <= k < 512 ==> #[trigger] atl[atlas_cell_index(astride, pc, k)] as int
                == quantize_byte(
                from.density_spec(brick_voxel(bcoord, k)),
                decoded_lo(rng[j]),
                decoded_hi(rng[j]),
            ))
    })
}

/// Child cell of a pyramid cell: the `t`-th of its 2x2x2 block.
pub open spec fn child_coord(c: UVec3, t: int) -> UVec3 {
    UVec3 {
        x: (2 * c.x + t % 2) as u32,
        y: (2 * c.y + (t / 2) % 2) as u32,
        z: (2 * c.z + t / 4) as u32,
    }
}

/// Minimum of the children's decoded minima, over the first `t + 1` children.
pub open spec fn mip_lo(src: Seq<u32>, sstride: UVec3, c: UVec3, t: int) -> int
    decreases t,
{
    let v = decoded_lo(src[lin_index(sstride, child_coord(c, t))]);
    if t <= 0 {
        v
    } else {
        vstd::math::min(mip_lo(src, sstride, c, t - 1), v)
    }
}

/// Maximum of the children's decoded maxima, over the first `t + 1` children.
pub open spec fn mip_hi(src: Seq<u32>, sstride: UVec3, c: UVec3, t: int) -> int
    decreases t,
{
    let v = decoded_hi(src[lin_index(sstride, child_coord(c, t))]);
    if t <= 0 {
        v
    } else {
        vstd::math::max(mip_hi(src, sstride, c, t - 1), v)
    }
}

/// The word a pyramid cell stores: the union (min-of-mins, max-of-maxes) of
/// its eight children, re-encoded.
pub open spec fn mip_word_spec(src: Seq<u32>, sstride: UVec3, c: UVec3) -> u32 {
    encode_range_spec(mip_lo(src, sstride, c, 7), mip_hi(src, sstride, c, 7))
}

/// A whole pyramid level aggregates its source level cell by cell.
pub open spec fn mip_level_ok(src: Seq<u32>, sstride: UVec3, dst: Seq<u32>, dstride: UVec3) -> bool {
    forall|m: int|
        0 <= m < dst.len() ==> #[trigger] dst[m] == mip_word_spec(
            src,
            sstride,
            lin_coord(dstride, m),
        )
}

/// The buffers the construction pass may produce fit in memory. Trivial on a
/// 64-bit machine; a machine limit, not a property of the format.
pub open spec fn construct_fits(extent: UVec3) -> bool {
    let ax = axis_bricks(extent.x as int);
    let ay = axis_bricks(extent.y as int);
    let az = axis_bricks(extent.z as int);
    (ax < 1024 && ay < 1024 && az < 1024) ==> (8 * ax) * (8 * ay) * (8 * az + 8) <= usize::MAX
}

/// The full contract of construction: geometry from the source extent, range
/// and indirection words and atlas cells per brick, the allocation counter,
/// the three pyramid levels, and the source's global statistics carried
/// through unchanged.
pub open spec fn constructed_from<G: Grid>(g: BrickGrid, from: G) -> bool {
    let bc = g.brick_count;
    &&& bc.x == axis_bricks(from.extent_spec().x as int)
    &&& bc.y == axis_bricks(from.extent_spec().y as int)
    &&& bc.z == axis_bricks(from.extent_spec().z as int)
    &&& g.min_maj.0.units == from.min_maj_spec().0
    &&& g.min_maj.1.units == from.min_maj_spec().1
    &&& g.scaling == from.scaling_spec()
    &&& g.histogram@ == from.histogram_spec()
    &&& g.histogram_gradient.0@ == from.gradient_spec().0
    &&& g.histogram_gradient.1 == from.gradient_spec().1
    &&& g.histogram_gradient.2 == from.gradient_spec().2
    &&& g.brick_counter == alloc_count(from, bc, g.num_bricks())
    &&& (forall|j: int|
        0 <= j < g.num_bricks() ==> #[trigger] brick_cells_ok(
            from,
            bc,
            g.indirection.data@,
            g.range.data@,
            g.atlas.data@,
            g.atlas.stride,
            j,
        ))
    &&& mip_level_ok(
        g.range.data@,
        bc,
        g.range_mipmaps@[0].data@,
        g.range_mipmaps@[0].stride,
    )
    &&& mip_level_ok(
        g.range_mipmaps@[0].data@,
        g.range_mipmaps@[0].stride,
        g.range_mipmaps@[1].data@,
        g.range_mipmaps@[1].stride,
    )
    &&& mip_level_ok(
        g.range_mipmaps@[1].data@,
        g.range_mipmaps@[1].stride,
        g.range_mipmaps@[2].data@,
        g.range_mipmaps@[2].stride,
    )
}

// ---------------------------------------------------------------------------
// Linear index arithmetic.
// ---------------------------------------------------------------------------

/// A linear slot index is recovered from its coordinate, and the coordinate
/// stays within the column extent (the depth may reach one past it for the
/// one-past-the-end slot).
pub proof fn lemma_lin_coord_index(counts: UVec3, s: int)
    requires
        counts.x >= 1,
        counts.y >= 1,
        0 <= s <= counts.volume(),
    ensures
        lin_index(counts, lin_coord(counts, s)) == s,
        (lin_coord(counts, s).x as int) < counts.x,
        (lin_coord(counts, s).y as int) < counts.y,
        (lin_coord(counts, s).z as int) <= counts.z,
        lin_coord(counts, s).x as int == s % (counts.x as int),
        lin_coord(counts, s).y as int == (s / (counts.x as int)) % (counts.y as int),
        lin_coord(counts, s).z as int == s / ((counts.x as int) * (counts.y as int)),
{
    let cx = counts.x as int;
    let cy = counts.y as int;
    let cz = counts.z as int;
    vstd::arithmetic::div_mod::lemma_fundamental_div_mod(s, cx);
    vstd::arithmetic::div_mod::lemma_mod_bound(s, cx);
    let q = s / cx;
    assert(0 <= q) by (nonlinear_arith)
        requires
            0 <= s,
            0 < cx,
            cx * q + s % cx == s,
            0 <= s % cx < cx,
    ;
    vstd::arithmetic::div_mod::lemma_fundamental_div_mod(q, cy);
    vstd::arithmetic::div_mod::lemma_mod_bound(q, cy);
    vstd::arithmetic::div_mod::lemma_div_denominator(s, cx, cy);
    assert(s / (cx * cy) == q / cy);
    assert(0 <= q / cy) by (nonlinear_arith)
        requires
            0 <= q,
            0 < cy,
            cy * (q / cy) + q % cy == q,
            0 <= q % cy < cy,
    ;
    assert(s <= (cx * cy) * cz) by (nonlinear_arith)
        requires
            s <= counts.volume(),
            counts.volume() == cx * cy * cz,
    ;
    assert(cx * cy >= 1) by (nonlinear_arith)
        requires
            cx >= 1,
            cy >= 1,
    ;
    vstd::arithmetic::div_mod::lemma_multiply_divide_le(s, cx * cy, cz);
    assert((q / cy) * (cx * cy) + (q % cy) * cx + s % cx == s) by (nonlinear_arith)
        requires
            cx * q + s % cx == s,
            cy * (q / cy) + q % cy == q,
    ;
}

/// Distinct (slot, voxel offset) pairs occupy distinct atlas cells.
pub proof fn lemma_atlas_cell_inj(astride: UVec3, pc1: UVec3, k1: int, pc2: UVec3, k2: int)
    requires
        0 <= k1 < 512,
        0 <= k2 < 512,
        8 * pc1.x + 8 <= astride.x && 8 * pc1.y + 8 <= astride.y && 8 * pc1.z + 8 <= astride.z,
        8 * pc2.x + 8 <= astride.x && 8 * pc2.y + 8 <= astride.y && 8 * pc2.z + 8 <= astride.z,
        atlas_cell_index(astride, pc1, k1) == atlas_cell_index(astride, pc2, k2),
    ensures
        pc1 == pc2 && k1 == k2,
{
    let c1 = atlas_cell_coord(pc1, k1);
    let c2 = atlas_cell_coord(pc2, k2);
    // The voxel offsets are valid remainders by 8.
    assert(0 <= k1 % 8 < 8 && 0 <= (k1 / 8) % 8 < 8 && 0 <= k1 / 64 < 8 && (k1 / 64) * 64 + ((k1
        / 8) % 8) * 8 + k1 % 8 == k1) by (nonlinear_arith)
        requires
            0 <= k1 < 512,
    ;
    assert(0 <= k2 % 8 < 8 && 0 <= (k2 / 8) % 8 < 8 && 0 <= k2 / 64 < 8 && (k2 / 64) * 64 + ((k2
        / 8) % 8) * 8 + k2 % 8 == k2) by (nonlinear_arith)
        requires
            0 <= k2 < 512,
    ;
    // Equal indices of in-bounds coordinates mean equal coordinates.
    let sx = astride.x as int;
    let sy = astride.y as int;
    let i1 = lin_index(astride, c1);
    crate::buf3d::lemma_index_in_volume(
        sx,
        sy,
        astride.z as int,
        c1.x as int,
        c1.y as int,
        c1.z as int,
    );
    assert(i1 == (c1.z * sy + c1.y) * sx + c1.x && 0 <= c1.z * sy + c1.y) by (nonlinear_arith)
        requires
            i1 == c1.z * (sx * sy) + c1.y * sx + c1.x,
            0 <= c1.z && 0 <= c1.y && 0 <= sy,
    ;
    vstd::arithmetic::div_mod::lemma_fundamental_div_mod_converse(
        i1,
        sx,
        c1.z * sy + c1.y,
        c1.x as int,
    );
    vstd::arithmetic::div_mod::lemma_fundamental_div_mod_converse(
        c1.z * sy + c1.y,
        sy,
        c1.z as int,
        c1.y as int,
    );
    let i2 = lin_index(astride, c2);
    crate::buf3d::lemma_index_in_volume(
        sx,
        sy,
        astride.z as int,
        c2.x as int,
        c2.y as int,
        c2.z as int,
    );
    assert(i2 == (c2.z * sy + c2.y) * sx + c2.x && 0 <= c2.z * sy + c2.y) by (nonlinear_arith)
        requires
            i2 == c2.z * (sx * sy) + c2.y * sx + c2.x,
            0 <= c2.z && 0 <= c2.y && 0 <= sy,
    ;
    vstd::arithmetic::div_mod::lemma_fundamental_div_mod_converse(
        i2,
        sx,
        c2.z * sy + c2.y,
        c2.x as int,
    );
    vstd::arithmetic::div_mod::lemma_fundamental_div_mod_converse(
        c2.z * sy + c2.y,
        sy,
        c2.z as int,
        c2.y as int,
    );
    assert(c1 == c2);
    // Equal coordinates split back into equal slot coordinates and offsets.
    vstd::arithmetic::div_mod::lemma_fundamental_div_mod_converse(
        c1.x as int,
        8,
        pc1.x as int,
        k1 % 8,
    );
    vstd::arithmetic::div_mod::lemma_fundamental_div_mod_converse(
        c2.x as int,
        8,
        pc2.x as int,
        k2 % 8,
    );
    vstd::arithmetic::div_mod::lemma_fundamental_div_mod_converse(
        c1.y as int,
        8,
        pc1.y as int,
        (k1 / 8) % 8,
    );
    vstd::arithmetic::div_mod::lemma_fundamental_div_mod_converse(
        c2.y as int,
        8,
        pc2.y as int,
        (k2 / 8) % 8,
    );
    vstd::arithmetic::div_mod::lemma_fundamental_div_mod_converse(
        c1.z as int,
        8,
        pc1.z as int,
        k1 / 64,
    );
    vstd::arithmetic::div_mod::lemma_fundamental_div_mod_converse(
        c2.z as int,
        8,
        pc2.z as int,
        k2 / 64,
    );
}

// ---------------------------------------------------------------------------
// Construction helpers.
// ---------------------------------------------------------------------------

/// Coordinate of an atlas slot under the brick extent. Slot indices run up to
/// one past the brick volume (slot zero is reserved), so the depth component
/// may reach one past the brick depth.
fn slot_coord(counts: UVec3, slot: usize) -> (c: UVec3)
    requires
        counts.x >= 1,
        counts.y >= 1,
        counts.x < 1024 && counts.y < 1024 && counts.z < 1024,
        slot <= counts.volume(),
    ensures
        c == lin_coord(counts, slot as int),
        c.x < counts.x && c.y < counts.y && c.z <= counts.z,
        lin_index(counts, c) == slot,
{
    proof {
        lemma_lin_coord_index(counts, slot as int);
        assert(counts.volume() < 0x40000000) by (nonlinear_arith)
            requires
                counts.x < 1024 && counts.y < 1024 && counts.z < 1024,
        ;
    }
    let cx = counts.x as usize;
    let cy = counts.y as usize;
    assert(1 <= (cx as int) * (cy as int) < 0x100000) by (nonlinear_arith)
        requires
            1 <= cx < 1024,
            1 <= cy < 1024,
    ;
    let x: usize = slot % cx;
    let y: usize = (slot / cx) % cy;
    let z: usize = slot / (cx * cy);
    UVec3 { x: x as u32, y: y as u32, z: z as u32 }
}

/// Scan the dilated brick (8 + 2 + 2 samples per axis) and return its local
/// density range.
fn dilated_range<G: Grid>(from: &G, bcoord: UVec3) -> (r: (Density, Density))
    requires
        from.inv(),
        bcoord.x < 1024 && bcoord.y < 1024 && bcoord.z < 1024,
    ensures
        r.0.units as int == brick_min(*from, bcoord),
        r.1.units as int == brick_max(*from, bcoord),
        r.0.wf() && r.1.wf(),
        r.0.units <= r.1.units,
{
    let first: Density = sample_dilated(from, bcoord, 0);
    let mut dmin: i64 = first.units;
    let mut dmax: i64 = first.units;
    let mut k: usize = 1;
    while k < 1728
        invariant
            1 <= k <= 1728,
            from.inv(),
            bcoord.x < 1024 && bcoord.y < 1024 && bcoord.z < 1024,
            dmin as int == dil_min(*from, bcoord, k as int - 1),
            dmax as int == dil_max(*from, bcoord, k as int - 1),
            density_wf(dmin as int) && density_wf(dmax as int),
            dmin <= dmax,
        decreases 1728 - k,
    {
        let d: Density = sample_dilated(from, bcoord, k);
        if d.units < dmin {
            dmin = d.units;
        }
        if d.units > dmax {
            dmax = d.units;
        }
        k = k + 1;
    }
    (Density { units: dmin }, Density { units: dmax })
}

/// Look up the `k`-th sample of the dilated brick, wrapping coordinates that
/// step below zero around the unsigned range.
fn sample_dilated<G: Grid>(from: &G, bcoord: UVec3, k: usize) -> (d: Density)
    requires
        from.inv(),
        k < 1728,
        bcoord.x < 1024 && bcoord.y < 1024 && bcoord.z < 1024,
    ensures
        d.units as int == dil_sample(*from, bcoord, k as int),
        d.wf(),
{
    let ox: i64 = (k % 12) as i64 - 2;
    let oy: i64 = ((k / 12) % 12) as i64 - 2;
    let oz: i64 = (k / 144) as i64 - 2;
    proof {
        assert(0 <= (k as int) % 12 < 12 && 0 <= ((k as int) / 12) % 12 < 12 && 0 <= (k as int)
            / 144 < 12) by (nonlinear_arith)
            requires
                0 <= k < 1728,
        ;
    }
    let cx: u32 = wrap_offset(bcoord.x, ox);
    let cy: u32 = wrap_offset(bcoord.y, oy);
    let cz: u32 = wrap_offset(bcoord.z, oz);
    from.lookup(UVec3 { x: cx, y: cy, z: cz })
}

/// `origin * 8 + off` with unsigned wrap-around below zero.
fn wrap_offset(origin: u32, off: i64) -> (c: u32)
    requires
        origin < 1024,
        -2 <= off <= 10,
    ensures
        c == wrap_u32(origin * 8 + off),
{
    let v: i64 = (origin as i64) * 8 + off;
    if v < 0 {
        proof {
            vstd::arithmetic::div_mod::lemma_fundamental_div_mod_converse_mod(
                v as int,
                0x100000000,
                -1,
                v + 0x100000000,
            );
        }
        (v + 0x100000000) as u32
    } else {
        proof {
            vstd::arithmetic::div_mod::lemma_fundamental_div_mod_converse_mod(
                v as int,
                0x100000000,
                0,
                v as int,
            );
        }
        v as u32
    }
}

/// How the per-axis brick count follows the extent: zero for an empty axis,
/// at least one brick (rounded up to a mip-aligned multiple of 8) otherwise,
/// and past the addressing ceiling exactly when the extent exceeds
/// `8 * 1016 = 8128` voxels.
pub proof fn lemma_axis_bricks(e: int)
    requires
        0 <= e <= u32::MAX,
    ensures
        axis_bricks(e) % 8 == 0,
        e <= 8128 ==> 0 <= axis_bricks(e) <= 1016,
        e > 8128 ==> axis_bricks(e) >= 1024,
        e >= 1 ==> axis_bricks(e) >= 8,
        e == 0 ==> axis_bricks(e) == 0,
        8 * axis_bricks(e) >= e || axis_bricks(e) >= 1024,
{
    let q1 = (e + 7) / 8;
    let q2 = (q1 + 7) / 8;
    vstd::arithmetic::div_mod::lemma_div_pos_is_pos(e + 7, 8);
    vstd::arithmetic::div_mod::lemma_mod_multiples_basic(q2, 8);
    if e <= 8128 {
        vstd::arithmetic::div_mod::lemma_div_is_ordered(e + 7, 8135, 8);
        vstd::arithmetic::div_mod::lemma_div_is_ordered(q1 + 7, 1023, 8);
    } else {
        vstd::arithmetic::div_mod::lemma_div_is_ordered(8136, e + 7, 8);
        vstd::arithmetic::div_mod::lemma_div_is_ordered(1024, q1 + 7, 8);
    }
    if e >= 1 {
        vstd::arithmetic::div_mod::lemma_div_is_ordered(8, e + 7, 8);
        vstd::arithmetic::div_mod::lemma_div_is_ordered(8, q1 + 7, 8);
    }
    // Coverage: 8 bricks of 8 voxels cover at least e voxels (in range).
    if e <= 8128 {
        vstd::arithmetic::div_mod::lemma_fundamental_div_mod(e + 7, 8);
        vstd::arithmetic::div_mod::lemma_mod_bound(e + 7, 8);
        vstd::arithmetic::div_mod::lemma_fundamental_div_mod(q1 + 7, 8);
        vstd::arithmetic::div_mod::lemma_mod_bound(q1 + 7, 8);
        assert(8 * q1 >= e && 8 * q2 >= q1);
        assert(8 * (8 * q2) >= 8 * q1) by (nonlinear_arith)
            requires
                8 * q2 >= q1,
        ;
    }
}

/// The allocation count grows monotonically with the scan, never faster than
/// one per brick.
pub proof fn lemma_alloc_count_mono<G: Grid>(from: G, counts: UVec3, n1: int, n2: int)
    requires
        0 <= n1 <= n2,
    ensures
        0 <= alloc_count(from, counts, n1) <= alloc_count(from, counts, n2),
        alloc_count(from, counts, n2) <= n2,
    decreases n2,
{
    if n2 > 0 {
        if n1 == n2 {
            lemma_alloc_count_mono(from, counts, 0, n2 - 1);
        } else {
            lemma_alloc_count_mono(from, counts, n1, n2 - 1);
        }
    }
}

/// Quantize the 512 voxels of the brick at `bcoord` against the decoded range
/// `[lo, hi]` and store them in the atlas brick at `pc`. No other atlas cell
/// changes.
fn fill_brick<G: Grid>(
    from: &G,
    atlas: &mut Buf3D<u8>,
    pc: UVec3,
    bcoord: UVec3,
    lo: Density,
    hi: Density,
) -> (r: ())
    requires
        from.inv(),
        old(atlas).wf(),
        8 * pc.x + 8 <= old(atlas).stride.x,
        8 * pc.y + 8 <= old(atlas).stride.y,
        8 * pc.z + 8 <= old(atlas).stride.z,
        bcoord.x < 1024 && bcoord.y < 1024 && bcoord.z < 1024,
        lo.wf() && hi.wf(),
    ensures
        final(atlas).wf(),
        final(atlas).stride == old(atlas).stride,
        final(atlas).data@.len() == old(atlas).data@.len(),
        forall|k: int|
            0 <= k < 512 ==> #[trigger] final(atlas).data@[atlas_cell_index(
                old(atlas).stride,
                pc,
                k,
            )] as int == quantize_byte(
                from.density_spec(brick_voxel(bcoord, k)),
                lo.units as int,
                hi.units as int,
            ),
        forall|i: int|
            0 <= i < final(atlas).data@.len() && (forall|k: int|
                0 <= k < 512 ==> i != #[trigger] atlas_cell_index(old(atlas).stride, pc, k))
                ==> final(atlas).data@[i] == old(atlas).data@[i],
{
    let mut k: usize = 0;
    while k < 512
        invariant
            k <= 512,
            from.inv(),
            atlas.wf(),
            atlas.stride == old(atlas).stride,
            atlas.data@.len() == old(atlas).data@.len(),
            8 * pc.x + 8 <= atlas.stride.x,
            8 * pc.y + 8 <= atlas.stride.y,
            8 * pc.z + 8 <= atlas.stride.z,
            bcoord.x < 1024 && bcoord.y < 1024 && bcoord.z < 1024,
            lo.wf() && hi.wf(),
            forall|k2: int|
                0 <= k2 < k ==> #[trigger] atlas.data@[atlas_cell_index(
                    old(atlas).stride,
                    pc,
                    k2,
                )] as int == quantize_byte(
                    from.density_spec(brick_voxel(bcoord, k2)),
                    lo.units as int,
                    hi.units as int,
                ),
            forall|i: int|
                0 <= i < atlas.data@.len() && (forall|k2: int|
                    0 <= k2 < 512 ==> i != #[trigger] atlas_cell_index(old(atlas).stride, pc, k2))
                    ==> atlas.data@[i] == old(atlas).data@[i],
        decreases 512 - k,
    {
        let ox: u32 = (k % 8) as u32;
        let oy: u32 = ((k / 8) % 8) as u32;
        let oz: u32 = (k / 64) as u32;
        proof {
            assert(0 <= (k as int) % 8 < 8 && 0 <= ((k as int) / 8) % 8 < 8 && 0 <= (k as int)
                / 64 < 8) by (nonlinear_arith)
                requires
                    0 <= k < 512,
            ;
        }
        let voxel = UVec3 { x: bcoord.x * 8 + ox, y: bcoord.y * 8 + oy, z: bcoord.z * 8 + oz };
        let d: Density = from.lookup(voxel);
        let byte: u8 = encode_voxel(d, lo, hi);
        let cell = UVec3 { x: 8 * pc.x + ox, y: 8 * pc.y + oy, z: 8 * pc.z + oz };
        let ai: usize = atlas.calculate_index(cell);
        proof {
            assert(cell == atlas_cell_coord(pc, k as int));
            assert(ai == atlas_cell_index(old(atlas).stride, pc, k as int));
            assert(voxel == brick_voxel(bcoord, k as int));
        }
        atlas.data.set(ai, byte);
        proof {
            // The new cell is distinct from every earlier cell of this brick.
            assert forall|k2: int| 0 <= k2 < k implies #[trigger] atlas.data@[atlas_cell_index(
                old(atlas).stride,
                pc,
                k2,
            )] as int == quantize_byte(
                from.density_spec(brick_voxel(bcoord, k2)),
                lo.units as int,
                hi.units as int,
            ) by {
                assert(0 <= k2 % 8 < 8 && 0 <= (k2 / 8) % 8 < 8 && 0 <= k2 / 64 < 8)
                    by (nonlinear_arith)
                    requires
                        0 <= k2 < 512,
                ;
                let cc = atlas_cell_coord(pc, k2);
                crate::buf3d::lemma_index_in_volume(
                    atlas.stride.x as int,
                    atlas.stride.y as int,
                    atlas.stride.z as int,
                    cc.x as int,
                    cc.y as int,
                    cc.z as int,
                );
                if atlas_cell_index(old(atlas).stride, pc, k2) == ai {
                    lemma_atlas_cell_inj(old(atlas).stride, pc, k2, pc, k as int);
                }
            }
        }
        k = k + 1;
    }
}

/// Build one pyramid level: each cell is the union (min-of-mins,
/// max-of-maxes) of its 2x2x2 children in the source level.
fn build_mip_level(src: &Buf3D<u32>, half: UVec3) -> (dst: Buf3D<u32>)
    requires
        src.wf(),
        src.stride.x == 2 * half.x,
        src.stride.y == 2 * half.y,
        src.stride.z == 2 * half.z,
        half.x < 1024 && half.y < 1024 && half.z < 1024,
        range_words_ok(src.data@),
    ensures
        dst.wf(),
        dst.stride == half,
        mip_level_ok(src.data@, src.stride, dst.data@, half),
        range_words_ok(dst.data@),
{
    proof {
        assert(half.volume() <= src.stride.volume() && half.volume() >= 0) by (nonlinear_arith)
            requires
                src.stride.x == 2 * half.x,
                src.stride.y == 2 * half.y,
                src.stride.z == 2 * half.z,
                half.x >= 0 && half.y >= 0 && half.z >= 0,
        ;
    }
    let mut dst: Buf3D<u32> = Buf3D::new(half, 0u32);
    let n: usize = dst.data.len();
    let mut m: usize = 0;
    while m < n
        invariant
            m <= n,
            n == dst.data@.len(),
            src.wf(),
            src.stride.x == 2 * half.x,
            src.stride.y == 2 * half.y,
            src.stride.z == 2 * half.z,
            half.x < 1024 && half.y < 1024 && half.z < 1024,
            range_words_ok(src.data@),
            dst.wf(),
            dst.stride == half,
            forall|m2: int|
                0 <= m2 < m ==> #[trigger] dst.data@[m2] == mip_word_spec(
                    src.data@,
                    src.stride,
                    lin_coord(half, m2),
                ) && range_word_finite(dst.data@[m2]) && decoded_lo(dst.data@[m2]) <= decoded_hi(
                    dst.data@[m2],
                ),
        decreases n - m,
    {
        let c: UVec3 = dst.calculate_coord(m);
        proof {
            assert(c == lin_coord(half, m as int));
        }
        let mut lo_units: i64 = 0;
        let mut hi_units: i64 = 0;
        let mut t: usize = 0;
        while t < 8
            invariant
                t <= 8,
                src.wf(),
                src.stride.x == 2 * half.x,
                src.stride.y == 2 * half.y,
                src.stride.z == 2 * half.z,
                range_words_ok(src.data@),
                c.x < half.x && c.y < half.y && c.z < half.z,
                t > 0 ==> lo_units as int == mip_lo(src.data@, src.stride, c, t as int - 1),
                t > 0 ==> hi_units as int == mip_hi(src.data@, src.stride, c, t as int - 1),
                t > 0 ==> density_wf(lo_units as int) && density_wf(hi_units as int),
                t > 0 ==> lo_units <= hi_units,
            decreases 8 - t,
        {
            let child = UVec3 {
                x: 2 * c.x + (t % 2) as u32,
                y: 2 * c.y + ((t / 2) % 2) as u32,
                z: 2 * c.z + (t / 4) as u32,
            };
            proof {
                assert(0 <= (t as int) % 2 < 2 && 0 <= ((t as int) / 2) % 2 < 2 && 0 <= (t as int)
                    / 4 < 2) by (nonlinear_arith)
                    requires
                        0 <= t < 8,
                ;
                assert(child == child_coord(c, t as int));
            }
            let si: usize = src.calculate_index(child);
            proof {
                assert(si == lin_index(src.stride, child_coord(c, t as int)));
            }
            let w: u32 = src.data[si];
            let (clo, chi) = decode_range(w);
            if t == 0 {
                lo_units = clo.units;
                hi_units = chi.units;
            } else {
                if clo.units < lo_units {
                    lo_units = clo.units;
                }
                if chi.units > hi_units {
                    hi_units = chi.units;
                }
            }
            t = t + 1;
        }
        let word: u32 = encode_range(
            Density { units: lo_units },
            Density { units: hi_units },
        );
        proof {
            lemma_round_monotone(lo_units as int, hi_units as int);
        }
        dst.data.set(m, word);
        m = m + 1;
    }
    dst
}

/// One step of the construction scan: measure the dilated range of brick
/// `j`, store its range word, and, when the brick is heterogeneous, claim the
/// next atlas slot, point the indirection word at it and quantize the brick
/// into it. Returns the updated allocation count.
#[verifier::rlimit(100)]
fn process_brick<G: Grid>(
    from: &G,
    bc: UVec3,
    astride: UVec3,
    indirection: &mut Buf3D<u32>,
    range: &mut Buf3D<u32>,
    atlas: &mut Buf3D<u8>,
    j: usize,
    counter: usize,
) -> (newcount: usize)
    requires
        from.inv(),
        bc.x % 8 == 0 && bc.y % 8 == 0 && bc.z % 8 == 0,
        bc.x <= 1016 && bc.y <= 1016 && bc.z <= 1016,
        old(indirection).wf() && old(indirection).stride == bc,
        old(range).wf() && old(range).stride == bc,
        old(atlas).wf() && old(atlas).stride == astride,
        astride == (UVec3 { x: (8 * bc.x) as u32, y: (8 * bc.y) as u32, z: (8 * bc.z + 8) as u32 }),
        j < bc.volume(),
        counter as int == alloc_count(*from, bc, j as int),
        counter <= j,
        forall|j2: int|
            0 <= j2 < j ==> #[trigger] brick_cells_ok(
                *from,
                bc,
                old(indirection).data@,
                old(range).data@,
                old(atlas).data@,
                astride,
                j2,
            ),
        forall|j2: int| #![trigger old(range).data@[j2]]
            j <= j2 < bc.volume() ==> old(range).data@[j2] == 0,
        forall|j2: int| #![trigger old(indirection).data@[j2]]
            j <= j2 < bc.volume() ==> old(indirection).data@[j2] == 0,
    ensures
        final(indirection).wf() && final(indirection).stride == bc,
        final(range).wf() && final(range).stride == bc,
        final(atlas).wf() && final(atlas).stride == astride,
        final(indirection).data@.len() == old(indirection).data@.len(),
        final(range).data@.len() == old(range).data@.len(),
        newcount as int == alloc_count(*from, bc, j as int + 1),
        newcount <= j + 1,
        forall|j2: int|
            0 <= j2 <= j ==> #[trigger] brick_cells_ok(
                *from,
                bc,
                final(indirection).data@,
                final(range).data@,
                final(atlas).data@,
                astride,
                j2,
            ),
        forall|j2: int| #![trigger final(range).data@[j2]]
            j < j2 < bc.volume() ==> final(range).data@[j2] == 0,
        forall|j2: int| #![trigger final(indirection).data@[j2]]
            j < j2 < bc.volume() ==> final(indirection).data@[j2] == 0,
{
    proof {
        assert(bc.x >= 1 && bc.y >= 1 && bc.z >= 1) by (nonlinear_arith)
            requires
                0 <= j < bc.volume(),
                bc.volume() == (bc.x as int) * (bc.y as int) * (bc.z as int),
                bc.x >= 0 && bc.y >= 0 && bc.z >= 0,
        ;
    }
    let bcoord: UVec3 = indirection.calculate_coord(j);
    proof {
        assert(bcoord == lin_coord(bc, j as int));
    }
    let (dmin, dmax) = dilated_range(from, bcoord);
    let rw: u32 = encode_range(dmin, dmax);
    range.data.set(j, rw);
    if dmin.units != dmax.units {
        let slot: usize = counter + 1;
        proof {
            lemma_alloc_count_mono(*from, bc, j as int, bc.volume());
        }
        let pc: UVec3 = slot_coord(bc, slot);
        let word: u32 = encode_ptr(&pc);
        proof {
            lemma_lin_coord_index(bc, slot as int);
            if pc == (UVec3 { x: 0, y: 0, z: 0 }) {
                assert(0 * ((bc.x as int) * (bc.y as int)) == 0 && 0 * (bc.x as int) == 0)
                    by (nonlinear_arith);
                assert(lin_index(bc, pc) == 0);
                assert(false);
            }
        }
        indirection.data.set(j, word);
        let (lo, hi) = decode_range(rw);
        proof {
            assert(8 * pc.x + 8 <= astride.x && 8 * pc.y + 8 <= astride.y && 8 * pc.z + 8
                <= astride.z);
        }
        fill_brick(from, atlas, pc, bcoord, lo, hi);
        proof {
            // Earlier bricks keep their certificates: the words at j and the
            // atlas cells of the new slot are all fresh territory.
            assert forall|j2: int| 0 <= j2 < j implies #[trigger] brick_cells_ok(
                *from,
                bc,
                indirection.data@,
                range.data@,
                atlas.data@,
                astride,
                j2,
            ) by {
                assert(brick_cells_ok(
                    *from,
                    bc,
                    old(indirection).data@,
                    old(range).data@,
                    old(atlas).data@,
                    astride,
                    j2,
                ));
                let bcoord2 = lin_coord(bc, j2);
                if !brick_homog(*from, bcoord2) {
                    let slot2 = 1 + alloc_count(*from, bc, j2);
                    let pc2 = lin_coord(bc, slot2);
                    lemma_alloc_count_mono(*from, bc, j2 + 1, j as int);
                    assert(slot2 < slot);
                    lemma_lin_coord_index(bc, slot2);
                    lemma_lin_coord_index(bc, slot as int);
                    assert(pc2 != pc);
                    assert forall|k2: int| 0 <= k2 < 512 implies #[trigger] atlas.data@[
                    atlas_cell_index(astride, pc2, k2)] == old(atlas).data@[atlas_cell_index(
                        astride,
                        pc2,
                        k2,
                    )] by {
                        assert(0 <= k2 % 8 < 8 && 0 <= (k2 / 8) % 8 < 8 && 0 <= k2 / 64 < 8)
                            by (nonlinear_arith)
                            requires
                                0 <= k2 < 512,
                        ;
                        let i = atlas_cell_index(astride, pc2, k2);
                        let cc = atlas_cell_coord(pc2, k2);
                        crate::buf3d::lemma_index_in_volume(
                            astride.x as int,
                            astride.y as int,
                            astride.z as int,
                            cc.x as int,
                            cc.y as int,
                            cc.z as int,
                        );
                        assert forall|k: int| 0 <= k < 512 implies i != #[trigger] atlas_cell_index(
                            astride,
                            pc,
                            k,
                        ) by {
                            assert(0 <= k % 8 < 8 && 0 <= (k / 8) % 8 < 8 && 0 <= k / 64 < 8)
                                by (nonlinear_arith)
                                requires
                                    0 <= k < 512,
                            ;
                            if i == atlas_cell_index(astride, pc, k) {
                                lemma_atlas_cell_inj(astride, pc2, k2, pc, k);
                            }
                        }
                    }
                }
            }
            // And the brick just processed earns its own.
            assert(brick_cells_ok(
                *from,
                bc,
                indirection.data@,
                range.data@,
                atlas.data@,
                astride,
                j as int,
            ));
            assert forall|j2: int| #![trigger range.data@[j2]]
                j < j2 < bc.volume() implies range.data@[j2] == 0 by {
                assert(old(range).data@[j2] == 0);
            }
            assert forall|j2: int| #![trigger indirection.data@[j2]]
                j < j2 < bc.volume() implies indirection.data@[j2] == 0 by {
                assert(old(indirection).data@[j2] == 0);
            }
        }
        counter + 1
    } else {
        proof {
            assert forall|j2: int| 0 <= j2 < j implies #[trigger] brick_cells_ok(
                *from,
                bc,
                indirection.data@,
                range.data@,
                atlas.data@,
                astride,
                j2,
            ) by {
                assert(brick_cells_ok(
                    *from,
                    bc,
                    old(indirection).data@,
                    old(range).data@,
                    old(atlas).data@,
                    astride,
                    j2,
                ));
            }
            assert(old(range).data@[j as int] == 0);
            assert(old(indirection).data@[j as int] == 0);
            assert(brick_cells_ok(
                *from,
                bc,
                indirection.data@,
                range.data@,
                atlas.data@,
                astride,
                j as int,
            ));
            assert forall|j2: int| #![trigger range.data@[j2]]
                j < j2 < bc.volume() implies range.data@[j2] == 0 by {
                assert(old(range).data@[j2] == 0);
            }
            assert forall|j2: int| #![trigger indirection.data@[j2]]
                j < j2 < bc.volume() implies indirection.data@[j2] == 0 by {
                assert(old(indirection).data@[j2] == 0);
            }
        }
        counter
    }
}

/// After pruning the atlas depth to cover every claimed slot, each brick's
/// certificate still holds over the pruned buffer.
#[verifier::rlimit(100)]
proof fn lemma_cells_survive_prune<G: Grid>(
    from: G,
    bc: UVec3,
    ind: Seq<u32>,
    rng: Seq<u32>,
    atl_pre: Seq<u8>,
    atl_post: Seq<u8>,
    astride: UVec3,
    pruned: UVec3,
    counter: int,
    nb: int,
    depth: int,
)
    requires
        nb == bc.volume(),
        bc.x <= 1016 && bc.y <= 1016 && bc.z <= 1016,
        astride == (UVec3 { x: (8 * bc.x) as u32, y: (8 * bc.y) as u32, z: (8 * bc.z + 8) as u32 }),
        pruned == (UVec3 { x: astride.x, y: astride.y, z: depth as u32 }),
        0 <= depth <= 8 * bc.z + 8,
        depth % 8 == 0,
        atl_pre.len() == astride.volume(),
        atl_post == atl_pre.subrange(0, pruned.volume() as int),
        counter == alloc_count(from, bc, nb),
        counter > 0 ==> (bc.x as int) * (bc.y as int) * (depth / 8) >= counter + 1,
        forall|j2: int|
            0 <= j2 < nb ==> #[trigger] brick_cells_ok(from, bc, ind, rng, atl_pre, astride, j2),
    ensures
        forall|j2: int|
            0 <= j2 < nb ==> #[trigger] brick_cells_ok(from, bc, ind, rng, atl_post, pruned, j2),
{
    let a = (bc.x as int) * (bc.y as int);
    assert(pruned.volume() == (astride.x as int) * (astride.y as int) * depth) by (nonlinear_arith)
        requires
            pruned.x == astride.x,
            pruned.y == astride.y,
            pruned.z == depth,
            pruned.volume() == pruned.x * pruned.y * pruned.z,
    ;
    assert(pruned.volume() <= astride.volume()) by (nonlinear_arith)
        requires
            pruned.x == astride.x,
            pruned.y == astride.y,
            0 <= pruned.z <= astride.z,
            pruned.volume() == pruned.x * pruned.y * pruned.z,
            astride.volume() == astride.x * astride.y * astride.z,
    ;
    assert forall|j2: int| 0 <= j2 < nb implies #[trigger] brick_cells_ok(
        from,
        bc,
        ind,
        rng,
        atl_post,
        pruned,
        j2,
    ) by {
        assert(brick_cells_ok(from, bc, ind, rng, atl_pre, astride, j2));
        let bcoord2 = lin_coord(bc, j2);
        if !brick_homog(from, bcoord2) {
            assert(bc.x >= 1 && bc.y >= 1 && bc.z >= 1) by (nonlinear_arith)
                requires
                    0 <= j2 < nb,
                    nb == (bc.x as int) * (bc.y as int) * (bc.z as int),
                    bc.x >= 0 && bc.y >= 0 && bc.z >= 0,
            ;
            let slot2 = 1 + alloc_count(from, bc, j2);
            let pc2 = lin_coord(bc, slot2);
            lemma_alloc_count_mono(from, bc, j2, nb);
            lemma_alloc_count_mono(from, bc, j2 + 1, nb);
            assert(alloc_count(from, bc, j2 + 1) == slot2);
            assert(slot2 <= counter);
            lemma_lin_coord_index(bc, slot2);
            // The slot's depth row is below the pruned depth.
            let dd = depth / 8;
            assert(pc2.z as int == slot2 / a);
            vstd::arithmetic::div_mod::lemma_multiply_divide_lt(slot2, a, dd);
            assert(pc2.z < dd);
            assert(8 * pc2.z + 8 <= depth);
            assert forall|k: int| 0 <= k < 512 implies #[trigger] atl_post[atlas_cell_index(
                pruned,
                pc2,
                k,
            )] as int == quantize_byte(
                from.density_spec(brick_voxel(bcoord2, k)),
                decoded_lo(rng[j2]),
                decoded_hi(rng[j2]),
            ) by {
                assert(0 <= k % 8 < 8 && 0 <= (k / 8) % 8 < 8 && 0 <= k / 64 < 8)
                    by (nonlinear_arith)
                    requires
                        0 <= k < 512,
                ;
                let cc = atlas_cell_coord(pc2, k);
                assert(atlas_cell_index(pruned, pc2, k) == atlas_cell_index(astride, pc2, k));
                crate::buf3d::lemma_index_in_volume(
                    pruned.x as int,
                    pruned.y as int,
                    depth,
                    cc.x as int,
                    cc.y as int,
                    cc.z as int,
                );
                let i = atlas_cell_index(astride, pc2, k);
                assert(0 <= i < pruned.volume());
                assert(atl_post[i] == atl_pre.subrange(0, pruned.volume() as int)[i]);
                assert(atl_post[i] == atl_pre[i]);
            }
        }
    }
}

/// The range table of a constructed grid decodes everywhere: each word came
/// from encoding an ordered, well-formed pair.
proof fn lemma_range_words_from_cells<G: Grid>(
    from: G,
    bc: UVec3,
    ind: Seq<u32>,
    rng: Seq<u32>,
    atl: Seq<u8>,
    astride: UVec3,
    nb: int,
)
    requires
        rng.len() == nb,
        forall|j2: int|
            0 <= j2 < nb ==> #[trigger] brick_cells_ok(from, bc, ind, rng, atl, astride, j2),
    ensures
        range_words_ok(rng),
{
    assert forall|j2: int| 0 <= j2 < rng.len() implies range_word_finite(#[trigger] rng[j2])
        && decoded_lo(rng[j2]) <= decoded_hi(rng[j2]) by {
        assert(brick_cells_ok(from, bc, ind, rng, atl, astride, j2));
        let bcoord2 = lin_coord(bc, j2);
        let dmin = brick_min(from, bcoord2);
        let dmax = brick_max(from, bcoord2);
        crate::density::lemma_round_err(dmin);
        crate::density::lemma_round_err(dmax);
        lemma_round_monotone(dmin, dmax);
        crate::pack::lemma_range_word_roundtrip(
            crate::density::f16_round_bits(dmin),
            crate::density::f16_round_bits(dmax),
        );
    }
}

impl BrickGrid {
    /// Build a brick grid from a fully materialized source in one pass:
    /// size the brick space from the extent, fail on the hard addressing
    /// ceiling, fill the range, indirection and atlas buffers brick by brick,
    /// prune the atlas to the depth actually claimed, build the pyramid, and
    /// carry the source's global statistics through unchanged.
    #[verifier::rlimit(100)]
    pub fn construct<G: Grid>(from: &G) -> (r: Result<BrickGrid, ConstructError>)
        requires
            from.inv(),
            construct_fits(from.extent_spec()),
        ensures
            r is Err <==> !(axis_bricks(from.extent_spec().x as int) < 1024 && axis_bricks(
                from.extent_spec().y as int,
            ) < 1024 && axis_bricks(from.extent_spec().z as int) < 1024),
            r matches Ok(g) ==> g.wf() && constructed_from(g, *from),
    {
        let extent: UVec3 = from.index_extent();
        proof {
            lemma_axis_bricks(extent.x as int);
            lemma_axis_bricks(extent.y as int);
            lemma_axis_bricks(extent.z as int);
        }
        if extent.x > 8128 || extent.y > 8128 || extent.z > 8128 {
            return Err(ConstructError::AddressingOverflow);
        }
        let bricks: UVec3 = div_round_up(
            div_round_up(extent, UVec3::splat(8)),
            UVec3::splat(8),
        );
        let bc = UVec3 { x: 8 * bricks.x, y: 8 * bricks.y, z: 8 * bricks.z };
        proof {
            assert(bc.x == axis_bricks(extent.x as int));
            assert(bc.y == axis_bricks(extent.y as int));
            assert(bc.z == axis_bricks(extent.z as int));
            assert(0 <= bc.volume() < 0x40000000) by (nonlinear_arith)
                requires
                    bc.x <= 1016 && bc.y <= 1016 && bc.z <= 1016,
            ;
        }
        let mut indirection: Buf3D<u32> = Buf3D::new(bc, 0u32);
        let mut range: Buf3D<u32> = Buf3D::new(bc, 0u32);
        let astride = UVec3 { x: 8 * bc.x, y: 8 * bc.y, z: 8 * bc.z + 8 };
        let mut atlas: Buf3D<u8> = Buf3D::new(astride, 0u8);
        let nb: usize = indirection.data.len();
        let mut counter: usize = 0;
        let mut j: usize = 0;
        while j < nb
            invariant
                from.inv(),
                nb == bc.volume(),
                bc.x % 8 == 0 && bc.y % 8 == 0 && bc.z % 8 == 0,
                bc.x <= 1016 && bc.y <= 1016 && bc.z <= 1016,
                indirection.wf() && indirection.stride == bc,
                range.wf() && range.stride == bc,
                atlas.wf() && atlas.stride == astride,
                astride == (UVec3 {
                    x: (8 * bc.x) as u32,
                    y: (8 * bc.y) as u32,
                    z: (8 * bc.z + 8) as u32,
                }),
                indirection.data@.len() == nb,
                range.data@.len() == nb,
                counter as int == alloc_count(*from, bc, j as int),
                counter <= j <= nb,
                forall|j2: int|
                    0 <= j2 < j ==> #[trigger] brick_cells_ok(
                        *from,
                        bc,
                        indirection.data@,
                        range.data@,
                        atlas.data@,
                        astride,
                        j2,
                    ),
                forall|j2: int| #![trigger range.data@[j2]]
                    j <= j2 < nb ==> range.data@[j2] == 0,
                forall|j2: int| #![trigger indirection.data@[j2]]
                    j <= j2 < nb ==> indirection.data@[j2] == 0,
            decreases nb - j,
        {
            counter = process_brick(from, bc, astride, &mut indirection, &mut range, &mut atlas, j, counter);
            j = j + 1;
        }
        // Reclaim the worst-case over-allocation: keep only the depth slices
        // that the claimed slots (and the reserved slot) actually occupy.
        let ghost atl_pre = atlas.data@;
        assert(0 <= (bc.x as int) * (bc.y as int) < 0x100000) by (nonlinear_arith)
            requires
                bc.x <= 1016,
                bc.y <= 1016,
        ;
        let area: usize = (bc.x as usize) * (bc.y as usize);
        let ghost a = area as int;
        let mut depth: usize = 0;
        let ghost mut dd: int = 0;
        if counter > 0 {
            proof {
                assert(bc.x >= 1 && bc.y >= 1 && bc.z >= 1 && a >= 1) by (nonlinear_arith)
                    requires
                        1 <= counter,
                        counter as int <= nb as int,
                        nb == (bc.x as int) * (bc.y as int) * (bc.z as int),
                        bc.x >= 0 && bc.y >= 0 && bc.z >= 0,
                        a == (bc.x as int) * (bc.y as int),
                ;
            }
            let slots: usize = (counter + (area - 1) + 1) / area;
            proof {
                dd = slots as int;
                // Coverage: slots * area is at least counter + 1.
                vstd::arithmetic::div_mod::lemma_fundamental_div_mod(counter as int + a, a);
                vstd::arithmetic::div_mod::lemma_mod_bound(counter as int + a, a);
                assert(a * dd >= counter + 1);
                // Fit: slots is at most bc.z + 1.
                assert(nb == a * (bc.z as int)) by (nonlinear_arith)
                    requires
                        nb == bc.volume(),
                        a == (bc.x as int) * (bc.y as int),
                ;
                assert(counter as int + a <= a * ((bc.z as int) + 1)) by (nonlinear_arith)
                    requires
                        counter as int <= a * (bc.z as int),
                ;
                vstd::arithmetic::div_mod::lemma_div_is_ordered(
                    counter as int + a,
                    a * ((bc.z as int) + 1),
                    a,
                );
                vstd::arithmetic::div_mod::lemma_fundamental_div_mod_converse(
                    a * ((bc.z as int) + 1),
                    a,
                    (bc.z as int) + 1,
                    0,
                );
                assert(dd <= (bc.z as int) + 1);
                vstd::arithmetic::div_mod::lemma_div_pos_is_pos(counter as int + a, a);
            }
            depth = 8 * slots;
            proof {
                vstd::arithmetic::div_mod::lemma_fundamental_div_mod_converse(
                    depth as int,
                    8,
                    dd,
                    0,
                );
                assert(depth as int % 8 == 0 && depth as int / 8 == dd);
            }
        }
        assert(counter > 0 ==> depth == 8 * dd && a * dd >= counter + 1 && dd <= bc.z + 1
            && depth as int % 8 == 0 && depth as int / 8 == dd);
        assert(depth <= 8 * bc.z + 8);
        atlas.prune(depth);
        let ghost pruned_stride = atlas.stride;
        proof {
            lemma_cells_survive_prune(
                *from,
                bc,
                indirection.data@,
                range.data@,
                atl_pre,
                atlas.data@,
                astride,
                pruned_stride,
                counter as int,
                nb as int,
                depth as int,
            );
        }
        // The min/max pyramid, level by level.
        proof {
            lemma_range_words_from_cells(
                *from,
                bc,
                indirection.data@,
                range.data@,
                atlas.data@,
                pruned_stride,
                nb as int,
            );
        }
        let h1: UVec3 = UVec3 { x: bc.x / 2, y: bc.y / 2, z: bc.z / 2 };
        let h2: UVec3 = UVec3 { x: bc.x / 4, y: bc.y / 4, z: bc.z / 4 };
        let h3: UVec3 = UVec3 { x: bc.x / 8, y: bc.y / 8, z: bc.z / 8 };
        proof {
            lemma_halving(bc.x as int);
            lemma_halving(bc.y as int);
            lemma_halving(bc.z as int);
        }
        let mm0: Buf3D<u32> = build_mip_level(&range, h1);
        let mm1: Buf3D<u32> = build_mip_level(&mm0, h2);
        let mm2: Buf3D<u32> = build_mip_level(&mm1, h3);
        let mut range_mipmaps: Vec<Buf3D<u32>> = Vec::new();
        range_mipmaps.push(mm0);
        range_mipmaps.push(mm1);
        range_mipmaps.push(mm2);
        let g = BrickGrid {
            brick_count: bc,
            min_maj: from.minorant_majorant(),
            brick_counter: counter,
            indirection,
            range,
            atlas,
            range_mipmaps,
            scaling: from.scaling(),
            histogram: from.histogram(),
            histogram_gradient: from.histogram_gradient(),
        };
        proof {
            lemma_constructed_wf(g, *from, nb as int, depth as int, a);
        }
        Ok(g)
    }
}

/// Dividing a multiple of eight by 2, 4 and 8 halves it exactly at each step.
proof fn lemma_halving(x: int)
    requires
        0 <= x,
        x % 8 == 0,
    ensures
        x == 2 * (x / 2),
        x / 2 == 2 * (x / 4),
        x / 4 == 2 * (x / 8),
        x / 8 >= 0,
{
    vstd::arithmetic::div_mod::lemma_fundamental_div_mod(x, 8);
    let m = x / 8;
    assert(x == 8 * m);
    assert(0 <= m) by (nonlinear_arith)
        requires
            0 <= x,
            x == 8 * m,
    ;
    vstd::arithmetic::div_mod::lemma_fundamental_div_mod_converse(x, 2, 4 * m, 0);
    vstd::arithmetic::div_mod::lemma_fundamental_div_mod_converse(x, 4, 2 * m, 0);
    vstd::arithmetic::div_mod::lemma_fundamental_div_mod_converse(x, 8, m, 0);
}

/// The assembled grid is well formed and carries the full construction
/// contract.
#[verifier::rlimit(100)]
proof fn lemma_constructed_wf<G: Grid>(g: BrickGrid, from: G, nb: int, depth: int, a: int)
    requires
        from.inv(),
        nb == g.num_bricks(),
        a == (g.brick_count.x as int) * (g.brick_count.y as int),
        g.indirection.wf() && g.indirection.stride == g.brick_count,
        g.range.wf() && g.range.stride == g.brick_count,
        g.atlas.wf(),
        g.atlas.stride.x == 8 * g.brick_count.x,
        g.atlas.stride.y == 8 * g.brick_count.y,
        g.atlas.stride.z == depth,
        depth % 8 == 0,
        0 <= depth <= 8 * g.brick_count.z + 8,
        g.brick_count.x % 8 == 0 && g.brick_count.y % 8 == 0 && g.brick_count.z % 8 == 0,
        g.brick_count.x <= 1016 && g.brick_count.y <= 1016 && g.brick_count.z <= 1016,
        g.min_maj.0.wf() && g.min_maj.1.wf(),
        g.range_mipmaps@.len() == 3,
        g.range_mipmaps@[0].wf() && g.range_mipmaps@[0].stride == (UVec3 {
            x: (g.brick_count.x / 2) as u32,
            y: (g.brick_count.y / 2) as u32,
            z: (g.brick_count.z / 2) as u32,
        }),
        g.range_mipmaps@[1].wf() && g.range_mipmaps@[1].stride == (UVec3 {
            x: (g.brick_count.x / 4) as u32,
            y: (g.brick_count.y / 4) as u32,
            z: (g.brick_count.z / 4) as u32,
        }),
        g.range_mipmaps@[2].wf() && g.range_mipmaps@[2].stride == (UVec3 {
            x: (g.brick_count.x / 8) as u32,
            y: (g.brick_count.y / 8) as u32,
            z: (g.brick_count.z / 8) as u32,
        }),
        g.brick_counter as int == alloc_count(from, g.brick_count, nb),
        g.brick_counter > 0 ==> a * (depth / 8) >= g.brick_counter + 1,
        forall|j2: int|
            0 <= j2 < nb ==> #[trigger] brick_cells_ok(
                from,
                g.brick_count,
                g.indirection.data@,
                g.range.data@,
                g.atlas.data@,
                g.atlas.stride,
                j2,
            ),
        range_words_ok(g.range.data@),
    ensures
        g.wf(),
{
    let bc = g.brick_count;
    assert forall|j: int|
        0 <= j < g.num_bricks() && #[trigger] g.indirection.data@[j] != 0 implies {
        let iw = g.indirection.data@[j];
        &&& ptr_x(iw) < bc.x
        &&& ptr_y(iw) < bc.y
        &&& 8 * ptr_z(iw) + 8 <= g.atlas.stride.z
    } by {
        assert(bc.x >= 1 && bc.y >= 1 && bc.z >= 1) by (nonlinear_arith)
            requires
                0 <= j < nb,
                nb == (bc.x as int) * (bc.y as int) * (bc.z as int),
                bc.x >= 0 && bc.y >= 0 && bc.z >= 0,
        ;
        assert(brick_cells_ok(
            from,
            bc,
            g.indirection.data@,
            g.range.data@,
            g.atlas.data@,
            g.atlas.stride,
            j,
        ));
        let bcoord = lin_coord(bc, j);
        assert(!brick_homog(from, bcoord));
        let slot = 1 + alloc_count(from, bc, j);
        let pc = lin_coord(bc, slot);
        lemma_alloc_count_mono(from, bc, j, nb);
        lemma_alloc_count_mono(from, bc, j + 1, nb);
        assert(1 <= slot <= g.brick_counter);
        lemma_lin_coord_index(bc, slot);
        lemma_ptr_word_roundtrip(pc);
        let dd = depth / 8;
        assert(pc.z as int == slot / a);
        assert(slot < a * dd);
        vstd::arithmetic::div_mod::lemma_multiply_divide_lt(slot, a, dd);
        vstd::arithmetic::div_mod::lemma_fundamental_div_mod(depth, 8);
        assert(8 * ptr_z(g.indirection.data@[j]) + 8 <= depth);
    }
    if g.brick_counter != 0 {
        let dd = depth / 8;
        vstd::arithmetic::div_mod::lemma_fundamental_div_mod(depth, 8);
        assert(g.atlas.data@.len() == (8 * bc.x as int) * (8 * bc.y as int) * depth);
        assert((8 * bc.x as int) * (8 * bc.y as int) * (8 * dd) == 512 * (a * dd))
            by (nonlinear_arith)
            requires
                a == (bc.x as int) * (bc.y as int),
        ;
        assert(512 * (g.brick_counter + 1) <= 512 * (a * dd)) by (nonlinear_arith)
            requires
                a * dd >= g.brick_counter + 1,
        ;
    }
}

// ---------------------------------------------------------------------------
// Laws of the pyramid and of construction.
// ---------------------------------------------------------------------------

/// The child minimum over the first `t + 1` children is attained by one of
/// them and bounds all of them; likewise for the maximum.
proof fn lemma_mip_bounds_attained(src: Seq<u32>, sstride: UVec3, c: UVec3, t: int)
    requires
        0 <= t,
    ensures
        exists|t2: int|
            0 <= t2 <= t && mip_lo(src, sstride, c, t) == decoded_lo(
                #[trigger] src[lin_index(sstride, child_coord(c, t2))],
            ),
        exists|t2: int|
            0 <= t2 <= t && mip_hi(src, sstride, c, t) == decoded_hi(
                #[trigger] src[lin_index(sstride, child_coord(c, t2))],
            ),
        forall|t2: int|
            0 <= t2 <= t ==> mip_lo(src, sstride, c, t) <= decoded_lo(
                #[trigger] src[lin_index(sstride, child_coord(c, t2))],
            ) && mip_hi(src, sstride, c, t) >= decoded_hi(
                src[lin_index(sstride, child_coord(c, t2))],
            ),
    decreases t,
{
    if t <= 0 {
        assert(mip_lo(src, sstride, c, t) == decoded_lo(
            src[lin_index(sstride, child_coord(c, 0))],
        ));
        assert(mip_hi(src, sstride, c, t) == decoded_hi(
            src[lin_index(sstride, child_coord(c, 0))],
        ));
    } else {
        lemma_mip_bounds_attained(src, sstride, c, t - 1);
        let v_lo = decoded_lo(src[lin_index(sstride, child_coord(c, t))]);
        if v_lo < mip_lo(src, sstride, c, t - 1) {
            assert(mip_lo(src, sstride, c, t) == decoded_lo(
                src[lin_index(sstride, child_coord(c, t))],
            ));
        } else {
            let w = choose|t2: int|
                0 <= t2 <= t - 1 && mip_lo(src, sstride, c, t - 1) == decoded_lo(
                    #[trigger] src[lin_index(sstride, child_coord(c, t2))],
                );
            assert(mip_lo(src, sstride, c, t) == decoded_lo(
                src[lin_index(sstride, child_coord(c, w))],
            ));
        }
        let v_hi = decoded_hi(src[lin_index(sstride, child_coord(c, t))]);
        if v_hi > mip_hi(src, sstride, c, t - 1) {
            assert(mip_hi(src, sstride, c, t) == decoded_hi(
                src[lin_index(sstride, child_coord(c, t))],
            ));
        } else {
            let w = choose|t2: int|
                0 <= t2 <= t - 1 && mip_hi(src, sstride, c, t - 1) == decoded_hi(
                    #[trigger] src[lin_index(sstride, child_coord(c, t2))],
                );
            assert(mip_hi(src, sstride, c, t) == decoded_hi(
                src[lin_index(sstride, child_coord(c, w))],
            ));
        }
    }
}

/// The union of its children's ranges is a whole number of density units on
/// the half-precision grid, so re-encoding it is exact: every pyramid cell
/// decodes to exactly (min of children minima, max of children maxima).
pub proof fn lemma_mip_aggregation(src: Seq<u32>, sstride: UVec3, dst: Seq<u32>, dstride: UVec3, m: int)
    requires
        range_words_ok(src),
        mip_level_ok(src, sstride, dst, dstride),
        sstride.x == 2 * dstride.x,
        sstride.y == 2 * dstride.y,
        sstride.z == 2 * dstride.z,
        src.len() == sstride.volume(),
        dst.len() == dstride.volume(),
        0 <= m < dst.len(),
    ensures
        decoded_lo(dst[m]) == mip_lo(src, sstride, lin_coord(dstride, m), 7),
        decoded_hi(dst[m]) == mip_hi(src, sstride, lin_coord(dstride, m), 7),
{
    let c = lin_coord(dstride, m);
    crate::buf3d::lemma_coord_of_index(
        dstride.x as int,
        dstride.y as int,
        dstride.z as int,
        m,
    );
    // Every child cell lies within the source level.
    assert forall|t2: int| 0 <= t2 < 8 implies 0 <= #[trigger] lin_index(
        sstride,
        child_coord(c, t2),
    ) < src.len() by {
        lemma_child_in_src(src, sstride, c, dstride, t2);
    }
    lemma_mip_bounds_attained(src, sstride, c, 7);
    let mlo = mip_lo(src, sstride, c, 7);
    let mhi = mip_hi(src, sstride, c, 7);
    let wlo = choose|t2: int|
        0 <= t2 <= 7 && mlo == decoded_lo(#[trigger] src[lin_index(sstride, child_coord(c, t2))]);
    let whi = choose|t2: int|
        0 <= t2 <= 7 && mhi == decoded_hi(#[trigger] src[lin_index(sstride, child_coord(c, t2))]);
    crate::density::lemma_round_value_exact(
        range_lo_bits(src[lin_index(sstride, child_coord(c, wlo))]),
    );
    crate::density::lemma_round_value_exact(
        range_hi_bits(src[lin_index(sstride, child_coord(c, whi))]),
    );
    crate::pack::lemma_range_word_roundtrip(
        crate::density::f16_round_bits(mlo),
        crate::density::f16_round_bits(mhi),
    );
    assert(dst[m] == mip_word_spec(src, sstride, c));
}

/// The dilated minimum and maximum bound every dilated sample up to `k`.
proof fn lemma_dil_bounds<G: Grid>(from: G, bcoord: UVec3, k: int, k2: int)
    requires
        0 <= k2 <= k,
    ensures
        dil_min(from, bcoord, k) <= dil_sample(from, bcoord, k2),
        dil_sample(from, bcoord, k2) <= dil_max(from, bcoord, k),
    decreases k,
{
    if k2 < k {
        lemma_dil_bounds(from, bcoord, k - 1, k2);
    }
}

/// Over a constant source every dilated range collapses to that constant.
proof fn lemma_dil_const<G: Grid>(from: G, bcoord: UVec3, c: int, k: int)
    requires
        0 <= k,
        forall|p: UVec3| from.density_spec(p) == c,
    ensures
        dil_min(from, bcoord, k) == c,
        dil_max(from, bcoord, k) == c,
    decreases k,
{
    if k > 0 {
        lemma_dil_const(from, bcoord, c, k - 1);
    }
}

/// Over a constant source no brick allocates.
proof fn lemma_alloc_const<G: Grid>(from: G, bc: UVec3, c: int, n: int)
    requires
        0 <= n,
        forall|p: UVec3| from.density_spec(p) == c,
    ensures
        alloc_count(from, bc, n) == 0,
    decreases n,
{
    if n > 0 {
        lemma_alloc_const(from, bc, c, n - 1);
        lemma_dil_const(from, lin_coord(bc, n - 1), c, 1727);
    }
}

/// Splitting an in-brick voxel offset: `k = ox + 8 oy + 64 oz` recovers its
/// three components.
proof fn lemma_off8_decomp(ox: int, oy: int, oz: int)
    requires
        0 <= ox < 8,
        0 <= oy < 8,
        0 <= oz < 8,
    ensures
        0 <= ox + 8 * oy + 64 * oz < 512,
        off8(ox + 8 * oy + 64 * oz) == (ox, oy, oz),
{
    let k = ox + 8 * oy + 64 * oz;
    vstd::arithmetic::div_mod::lemma_fundamental_div_mod_converse(k, 8, oy + 8 * oz, ox);
    vstd::arithmetic::div_mod::lemma_fundamental_div_mod_converse(oy + 8 * oz, 8, oz, oy);
    vstd::arithmetic::div_mod::lemma_fundamental_div_mod_converse(k, 64, oz, oy * 8 + ox);
}

/// The voxel at offset `(ox, oy, oz)` of a brick is also the dilated sample
/// with index `(ox + 2) + 12 (oy + 2) + 144 (oz + 2)`.
proof fn lemma_dil_offset_decomp(ox: int, oy: int, oz: int)
    requires
        0 <= ox < 8,
        0 <= oy < 8,
        0 <= oz < 8,
    ensures
        0 <= (ox + 2) + 12 * (oy + 2) + 144 * (oz + 2) < 1728,
        dil_offset((ox + 2) + 12 * (oy + 2) + 144 * (oz + 2)) == (ox, oy, oz),
{
    let k = (ox + 2) + 12 * (oy + 2) + 144 * (oz + 2);
    vstd::arithmetic::div_mod::lemma_fundamental_div_mod_converse(
        k,
        12,
        (oy + 2) + 12 * (oz + 2),
        ox + 2,
    );
    vstd::arithmetic::div_mod::lemma_fundamental_div_mod_converse(
        (oy + 2) + 12 * (oz + 2),
        12,
        oz + 2,
        oy + 2,
    );
    vstd::arithmetic::div_mod::lemma_fundamental_div_mod_converse(
        k,
        144,
        oz + 2,
        12 * (oy + 2) + (ox + 2),
    );
}

/// An in-range value is its own remainder by 2^32.
proof fn lemma_wrap_identity(v: int)
    requires
        0 <= v < 0x100000000,
    ensures
        wrap_u32(v) == v,
{
    vstd::arithmetic::div_mod::lemma_fundamental_div_mod_converse_mod(v, 0x100000000, 0, v);
}

/// In-extent geometry of a lookup: the probed voxel belongs to its brick and
/// to that brick's dilated region, so the stored range brackets its density.
proof fn lemma_voxel_in_brick_range<G: Grid>(g: BrickGrid, from: G, ipos: UVec3)
    requires
        g.wf(),
        constructed_from(g, from),
        ipos.x < 8 * g.brick_count.x,
        ipos.y < 8 * g.brick_count.y,
        ipos.z < 8 * g.brick_count.z,
    ensures
        ({
            let bc = g.brick_count;
            let bcoord = UVec3 {
                x: (ipos.x / 8) as u32,
                y: (ipos.y / 8) as u32,
                z: (ipos.z / 8) as u32,
            };
            let j = lin_index(bc, bcoord);
            let k = (ipos.x % 8) + 8 * (ipos.y % 8) + 64 * (ipos.z % 8);
            &&& 0 <= j < g.num_bricks()
            &&& lin_coord(bc, j) == bcoord
            &&& 0 <= k < 512
            &&& brick_voxel(bcoord, k) == ipos
            &&& brick_min(from, bcoord) <= from.density_spec(ipos) <= brick_max(from, bcoord)
        }),
{
    let bc = g.brick_count;
    let bcoord = UVec3 { x: (ipos.x / 8) as u32, y: (ipos.y / 8) as u32, z: (ipos.z / 8) as u32 };
    assert(ipos.x / 8 < bc.x && ipos.y / 8 < bc.y && ipos.z / 8 < bc.z) by (nonlinear_arith)
        requires
            ipos.x < 8 * bc.x,
            ipos.y < 8 * bc.y,
            ipos.z < 8 * bc.z,
    ;
    crate::buf3d::lemma_index_in_volume(
        bc.x as int,
        bc.y as int,
        bc.z as int,
        bcoord.x as int,
        bcoord.y as int,
        bcoord.z as int,
    );
    g.indirection.lemma_coord_index_roundtrip(bcoord);
    assert(lin_index(bc, bcoord) == g.indirection.index_of(bcoord));
    assert(lin_coord(bc, lin_index(bc, bcoord)) == g.indirection.coord_of(
        g.indirection.index_of(bcoord),
    ));
    let ox = (ipos.x % 8) as int;
    let oy = (ipos.y % 8) as int;
    let oz = (ipos.z % 8) as int;
    let k = ox + 8 * oy + 64 * oz;
    lemma_off8_decomp(ox, oy, oz);
    vstd::arithmetic::div_mod::lemma_fundamental_div_mod(ipos.x as int, 8);
    vstd::arithmetic::div_mod::lemma_fundamental_div_mod(ipos.y as int, 8);
    vstd::arithmetic::div_mod::lemma_fundamental_div_mod(ipos.z as int, 8);
    assert(brick_voxel(bcoord, k) == ipos);
    // The voxel is one of the brick's dilated samples.
    let kd = (ox + 2) + 12 * (oy + 2) + 144 * (oz + 2);
    lemma_dil_offset_decomp(ox, oy, oz);
    lemma_wrap_identity(bcoord.x * 8 + ox);
    lemma_wrap_identity(bcoord.y * 8 + oy);
    lemma_wrap_identity(bcoord.z * 8 + oz);
    assert(dil_coord(bcoord, kd) == ipos);
    lemma_dil_bounds(from, bcoord, 1727, kd);
}

/// Homogeneity compression: a source with one constant density everywhere
/// yields zero allocated atlas bricks, and every lookup decodes to that
/// density rounded once to half precision.
pub proof fn lemma_homogeneous_compression<G: Grid>(g: BrickGrid, from: G, c: int, ipos: UVec3)
    requires
        g.wf(),
        constructed_from(g, from),
        forall|p: UVec3| from.density_spec(p) == c,
        density_wf(c),
        g.num_bricks() > 0,
        ipos.x < 8 * g.brick_count.x,
        ipos.y < 8 * g.brick_count.y,
        ipos.z < 8 * g.brick_count.z,
    ensures
        g.brick_counter == 0,
        g.grid_density(ipos) == crate::density::f16_units(crate::density::f16_round_bits(c)),
{
    let bc = g.brick_count;
    lemma_alloc_const(from, bc, c, g.num_bricks());
    assert(bc.x >= 1 && bc.y >= 1 && bc.z >= 1) by (nonlinear_arith)
        requires
            g.num_bricks() > 0,
            g.num_bricks() == (bc.x as int) * (bc.y as int) * (bc.z as int),
            bc.x >= 0 && bc.y >= 0 && bc.z >= 0,
    ;
    lemma_voxel_in_brick_range(g, from, ipos);
    let bcoord = UVec3 { x: (ipos.x / 8) as u32, y: (ipos.y / 8) as u32, z: (ipos.z / 8) as u32 };
    let j = lin_index(bc, bcoord);
    assert(brick_cells_ok(
        from,
        bc,
        g.indirection.data@,
        g.range.data@,
        g.atlas.data@,
        g.atlas.stride,
        j,
    ));
    lemma_dil_const(from, bcoord, c, 1727);
    assert(g.indirection.data@[j] == 0);
    crate::pack::lemma_range_word_roundtrip(
        crate::density::f16_round_bits(c),
        crate::density::f16_round_bits(c),
    );
    assert(g.grid_density(ipos) == decoded_lo(g.range.data@[j]));
}

/// Round-trip error bound: for every voxel of the grid, the decoded density
/// differs from the source density by at most `(hi - lo) / 510` (the stored,
/// re-decoded brick range) plus the half-precision rounding slack of the two
/// range bounds.
#[verifier::rlimit(100)]
pub proof fn lemma_lookup_error_bound<G: Grid>(g: BrickGrid, from: G, ipos: UVec3)
    requires
        g.wf(),
        constructed_from(g, from),
        ipos.x < 8 * g.brick_count.x,
        ipos.y < 8 * g.brick_count.y,
        ipos.z < 8 * g.brick_count.z,
    ensures
        ({
            let bcoord = UVec3 {
                x: (ipos.x / 8) as u32,
                y: (ipos.y / 8) as u32,
                z: (ipos.z / 8) as u32,
            };
            let rw = g.range.data@[lin_index(g.brick_count, bcoord)];
            510 * vstd::math::abs(g.grid_density(ipos) - from.density_spec(ipos)) <= (decoded_hi(
                rw,
            ) - decoded_lo(rw)) + 510 * (crate::density::half_prec_slack(
                brick_min(from, bcoord),
            ) + crate::density::half_prec_slack(brick_max(from, bcoord)))
        }),
{
    let bc = g.brick_count;
    lemma_voxel_in_brick_range(g, from, ipos);
    let bcoord = UVec3 { x: (ipos.x / 8) as u32, y: (ipos.y / 8) as u32, z: (ipos.z / 8) as u32 };
    let j = lin_index(bc, bcoord);
    assert(brick_cells_ok(
        from,
        bc,
        g.indirection.data@,
        g.range.data@,
        g.atlas.data@,
        g.atlas.stride,
        j,
    ));
    let dmin = brick_min(from, bcoord);
    let dmax = brick_max(from, bcoord);
    let rw = g.range.data@[j];
    crate::pack::lemma_range_word_roundtrip(
        crate::density::f16_round_bits(dmin),
        crate::density::f16_round_bits(dmax),
    );
    let lo = decoded_lo(rw);
    let hi = decoded_hi(rw);
    crate::density::lemma_round_err_slack(dmin);
    crate::density::lemma_round_err_slack(dmax);
    crate::density::lemma_round_monotone(dmin, dmax);
    let v = from.density_spec(ipos);
    let iw = g.indirection.data@[j];
    let d = g.grid_density(ipos);
    if iw == 0 {
        // Homogeneous brick: the single stored bound is within slack of the
        // collapsed true range, which contains v.
        assert(brick_homog(from, bcoord));
        assert(d == lo);
    } else {
        assert(!brick_homog(from, bcoord));
        let slot = 1 + alloc_count(from, bc, j);
        let pc = lin_coord(bc, slot);
        assert(bc.x >= 1 && bc.y >= 1 && bc.z >= 1) by (nonlinear_arith)
            requires
                0 <= j < g.num_bricks(),
                g.num_bricks() == (bc.x as int) * (bc.y as int) * (bc.z as int),
                bc.x >= 0 && bc.y >= 0 && bc.z >= 0,
        ;
        lemma_alloc_count_mono(from, bc, j + 1, g.num_bricks());
        lemma_lin_coord_index(bc, slot);
        lemma_ptr_word_roundtrip(pc);
        let ox = (ipos.x % 8) as int;
        let oy = (ipos.y % 8) as int;
        let oz = (ipos.z % 8) as int;
        let k = ox + 8 * oy + 64 * oz;
        // The probed atlas cell is exactly the cell the builder filled.
        assert(ptr_x(iw) == pc.x && ptr_y(iw) == pc.y && ptr_z(iw) == pc.z);
        let voxel = UVec3 {
            x: (8 * ptr_x(iw) + ipos.x % 8) as u32,
            y: (8 * ptr_y(iw) + ipos.y % 8) as u32,
            z: (8 * ptr_z(iw) + ipos.z % 8) as u32,
        };
        assert(voxel == atlas_cell_coord(pc, k));
        assert(g.atlas.index_of(voxel) == atlas_cell_index(g.atlas.stride, pc, k));
        let byte = g.atlas.data@[atlas_cell_index(g.atlas.stride, pc, k)] as int;
        assert(byte == quantize_byte(v, lo, hi));
        assert(d == dequantize_byte(byte, lo, hi));
        // The stored range is a whole number of 255ths.
        assert((hi - lo) % 255 == 0) by {
            vstd::arithmetic::div_mod::lemma_fundamental_div_mod_converse(
                hi - lo,
                255,
                crate::density::f16_scaled(range_hi_bits(rw)) - crate::density::f16_scaled(
                    range_lo_bits(rw),
                ),
                0,
            );
        }
        crate::pack::lemma_quantize_roundtrip(v, lo, hi);
    }
}

/// Geometry of the pyramid: a cell's children lie inside the source level.
proof fn lemma_child_in_src(src: Seq<u32>, sstride: UVec3, c: UVec3, dstride: UVec3, t: int)
    requires
        0 <= t < 8,
        sstride.x == 2 * dstride.x,
        sstride.y == 2 * dstride.y,
        sstride.z == 2 * dstride.z,
        src.len() == sstride.volume(),
        c.x < dstride.x && c.y < dstride.y && c.z < dstride.z,
    ensures
        0 <= lin_index(sstride, child_coord(c, t)) < src.len(),
{
    assert(0 <= t % 2 < 2 && 0 <= (t / 2) % 2 < 2 && 0 <= t / 4 < 2) by (nonlinear_arith)
        requires
            0 <= t < 8,
    ;
    let ch = child_coord(c, t);
    assert(ch.x < sstride.x && ch.y < sstride.y && ch.z < sstride.z);
    crate::buf3d::lemma_index_in_volume(
        sstride.x as int,
        sstride.y as int,
        sstride.z as int,
        ch.x as int,
        ch.y as int,
        ch.z as int,
    );
}

} // verus!

