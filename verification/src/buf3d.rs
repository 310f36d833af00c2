//! Flat row-major 3D buffers.
//!
//! A `Buf3D` owns a contiguous array together with a 3-component stride; the
//! element count always equals the stride volume. The linear layout is
//! row-major with `x` fastest, then `y`, then `z`:
//! `index = z * sx * sy + y * sx + x`.

use crate::uvec3::UVec3;
use vstd::prelude::*;

verus! {

pub struct Buf3D<T> {
    pub stride: UVec3,
    pub data: Vec<T>,
}

impl<T: Copy> Buf3D<T> {
    /// The element count matches the stride volume at all times.
    pub open spec fn wf(self) -> bool {
        self.data.len() == self.stride.volume()
    }

    pub open spec fn in_bounds(self, coord: UVec3) -> bool {
        coord.x < self.stride.x && coord.y < self.stride.y && coord.z < self.stride.z
    }

    /// Row-major linear index of a coordinate.
    pub open spec fn index_of(self, coord: UVec3) -> int {
        coord.z * (self.stride.x * self.stride.y) + coord.y * self.stride.x + coord.x
    }

    /// Inverse of [`Buf3D::index_of`] on valid indices.
    pub open spec fn coord_of(self, index: int) -> UVec3 {
        UVec3 {
            x: (index % (self.stride.x as int)) as u32,
            y: ((index / (self.stride.x as int)) % (self.stride.y as int)) as u32,
            z: (index / (self.stride.x as int * self.stride.y as int)) as u32,
        }
    }

    /// A buffer of the given extent with every element set to `fill`.
    pub fn new(stride: UVec3, fill: T) -> (buf: Buf3D<T>)
        requires
            stride.volume() <= usize::MAX,
        ensures
            buf.wf(),
            buf.stride == stride,
            buf.data@.len() == stride.volume(),
            forall|i: int| 0 <= i < buf.data@.len() ==> buf.data@[i] == fill,
    {
        let count: usize = if stride.x == 0 || stride.y == 0 || stride.z == 0 {
            proof {
                assert(stride.x as int * stride.y as int * stride.z as int == 0)
                    by (nonlinear_arith)
                    requires
                        stride.x == 0 || stride.y == 0 || stride.z == 0,
                ;
            }
            0
        } else {
            assert(stride.x * stride.y <= stride.volume() && stride.x as int * stride.y as int
                * stride.z as int == stride.volume()) by (nonlinear_arith)
                requires
                    stride.x >= 1 && stride.y >= 1 && stride.z >= 1,
            ;
            (stride.x as usize) * (stride.y as usize) * (stride.z as usize)
        };
        let mut data: Vec<T> = Vec::new();
        while data.len() < count
            invariant
                data.len() <= count,
                forall|i: int| 0 <= i < data@.len() ==> data@[i] == fill,
            decreases count - data.len(),
        {
            data.push(fill);
        }
        Buf3D { stride, data }
    }

    /// The zero-extent buffer.
    pub fn empty() -> (buf: Buf3D<T>)
        ensures
            buf.wf(),
            buf.stride == (UVec3 { x: 0, y: 0, z: 0 }),
            buf.data@.len() == 0,
    {
        Buf3D { stride: UVec3 { x: 0, y: 0, z: 0 }, data: Vec::new() }
    }

    /// Linear index of an in-bounds coordinate.
    pub fn calculate_index(&self, coord: UVec3) -> (index: usize)
        requires
            self.wf(),
            self.in_bounds(coord),
        ensures
            index == self.index_of(coord),
            index < self.data@.len(),
    {
        let sx = self.stride.x as usize;
        let sy = self.stride.y as usize;
        proof {
            lemma_index_in_volume(
                self.stride.x as int,
                self.stride.y as int,
                self.stride.z as int,
                coord.x as int,
                coord.y as int,
                coord.z as int,
            );
        }
        (coord.z as usize) * (sx * sy) + (coord.y as usize) * sx + (coord.x as usize)
    }

    /// Coordinate of a valid linear index.
    pub fn calculate_coord(&self, index: usize) -> (coord: UVec3)
        requires
            self.wf(),
            index < self.data@.len(),
        ensures
            coord == self.coord_of(index as int),
            self.in_bounds(coord),
            self.index_of(coord) == index,
    {
        proof {
            lemma_coord_of_index(
                self.stride.x as int,
                self.stride.y as int,
                self.stride.z as int,
                index as int,
            );
        }
        let sx = self.stride.x as usize;
        let sy = self.stride.y as usize;
        assert(sx * sy <= self.data@.len());
        let x: usize = index % sx;
        let y: usize = (index / sx) % sy;
        let z: usize = index / (sx * sy);
        UVec3 { x: x as u32, y: y as u32, z: z as u32 }
    }

    /// Shrink the buffer to `slices` depth slices, truncating trailing data.
    pub fn prune(&mut self, slices: usize)
        requires
            old(self).wf(),
            slices <= old(self).stride.z,
        ensures
            final(self).wf(),
            final(self).stride == (UVec3 {
                x: old(self).stride.x,
                y: old(self).stride.y,
                z: slices as u32,
            }),
            final(self).data@ == old(self).data@.subrange(
                0,
                final(self).stride.volume() as int,
            ),
    {
        let sx = self.stride.x as usize;
        let sy = self.stride.y as usize;
        let ghost a = sx as int;
        let ghost b = sy as int;
        let ghost c = self.stride.z as int;
        let ghost s = slices as int;
        assert(self.stride.volume() == a * b * c);
        let new_len: usize = if slices == 0 {
            proof {
                assert(a * b * 0 == 0) by (nonlinear_arith);
            }
            0
        } else {
            assert(a * b <= a * b * s <= a * b * c) by (nonlinear_arith)
                requires
                    1 <= s <= c,
                    0 <= a,
                    0 <= b,
            ;
            sx * sy * slices
        };
        self.data.truncate(new_len);
        self.stride.z = slices as u32;
        assert(self.stride.volume() == a * b * s);
    }

    /// Reallocate to a new extent. The data prefix (in linear order) is
    /// preserved; any grown region is `fill`.
    pub fn resize(&mut self, stride: &UVec3, fill: T)
        requires
            old(self).wf(),
            stride.volume() <= usize::MAX,
        ensures
            final(self).wf(),
            final(self).stride == *stride,
            final(self).data@.len() == stride.volume(),
            forall|i: int|
                0 <= i < old(self).data@.len() && i < final(self).data@.len()
                    ==> final(self).data@[i] == old(self).data@[i],
            forall|i: int|
                old(self).data@.len() <= i < final(self).data@.len() ==> final(self).data@[i]
                    == fill,
    {
        let new_len: usize = if stride.x == 0 || stride.y == 0 || stride.z == 0 {
            proof {
                assert(stride.x as int * stride.y as int * stride.z as int == 0)
                    by (nonlinear_arith)
                    requires
                        stride.x == 0 || stride.y == 0 || stride.z == 0,
                ;
            }
            0
        } else {
            assert(stride.x * stride.y <= stride.volume() && stride.x as int * stride.y as int
                * stride.z as int == stride.volume()) by (nonlinear_arith)
                requires
                    stride.x >= 1 && stride.y >= 1 && stride.z >= 1,
            ;
            (stride.x as usize) * (stride.y as usize) * (stride.z as usize)
        };
        if new_len <= self.data.len() {
            self.data.truncate(new_len);
        } else {
            while self.data.len() < new_len
                invariant
                    self.data@.len() >= old(self).data@.len(),
                    self.data@.len() <= new_len,
                    forall|i: int|
                        0 <= i < old(self).data@.len() && i < self.data@.len() ==> self.data@[i]
                            == old(self).data@[i],
                    forall|i: int|
                        old(self).data@.len() <= i < self.data@.len() ==> self.data@[i] == fill,
                decreases new_len - self.data@.len(),
            {
                self.data.push(fill);
            }
        }
        self.stride = *stride;
    }

    /// Concatenate `other`'s data after `self`'s in depth order, growing the
    /// depth extent accordingly and leaving `other` empty. Fails (returning
    /// `false` and changing nothing) when the `x`/`y` strides differ.
    pub fn append_depth_slice(&mut self, other: &mut Buf3D<T>) -> (ok: bool)
        requires
            old(self).wf(),
            old(other).wf(),
            old(self).stride.z + old(other).stride.z <= u32::MAX,
        ensures
            ok == (old(self).stride.x == old(other).stride.x && old(self).stride.y == old(
                other,
            ).stride.y),
            ok ==> final(self).stride == (UVec3 {
                x: old(self).stride.x,
                y: old(self).stride.y,
                z: (old(self).stride.z + old(other).stride.z) as u32,
            }),
            ok ==> final(self).data@ == old(self).data@ + old(other).data@,
            ok ==> final(other).stride == (UVec3 {
                x: old(other).stride.x,
                y: old(other).stride.y,
                z: 0,
            }),
            ok ==> final(other).data@.len() == 0,
            ok ==> final(self).wf() && final(other).wf(),
            !ok ==> *final(self) == *old(self) && *final(other) == *old(other),
    {
        if self.stride.x != other.stride.x || self.stride.y != other.stride.y {
            return false;
        }
        let ghost a = self.stride.x as int;
        let ghost b = self.stride.y as int;
        let ghost z1g = self.stride.z as int;
        let ghost z2g = other.stride.z as int;
        self.data.append(&mut other.data);
        let z1 = self.stride.z;
        let z2 = other.stride.z;
        self.stride.z = z1 + z2;
        other.stride.z = 0;
        assert(a * b * z1g + a * b * z2g == a * b * (z1g + z2g) && a * b * 0 == 0)
            by (nonlinear_arith)
        ;
        true
    }

    /// Mapping a coordinate to its index and back is the identity.
    pub proof fn lemma_coord_index_roundtrip(self, coord: UVec3)
        requires
            self.wf(),
            self.in_bounds(coord),
        ensures
            self.coord_of(self.index_of(coord)) == coord,
            0 <= self.index_of(coord) < self.stride.volume(),
    {
        lemma_index_in_volume(
            self.stride.x as int,
            self.stride.y as int,
            self.stride.z as int,
            coord.x as int,
            coord.y as int,
            coord.z as int,
        );
        lemma_coord_of_index(
            self.stride.x as int,
            self.stride.y as int,
            self.stride.z as int,
            self.index_of(coord),
        );
        let sx = self.stride.x as int;
        let sy = self.stride.y as int;
        let i = self.index_of(coord);
        let x = coord.x as int;
        let y = coord.y as int;
        let z = coord.z as int;
        // i == (z * sy + y) * sx + x, with x a valid remainder by sx.
        assert(i == (z * sy + y) * sx + x && 0 <= z * sy + y) by (nonlinear_arith)
            requires
                i == z * (sx * sy) + y * sx + x,
                0 <= x < sx,
                0 <= y < sy,
                0 <= z,
        ;
        vstd::arithmetic::div_mod::lemma_fundamental_div_mod_converse(i, sx, z * sy + y, x);
        // i / sx == z * sy + y, with y a valid remainder by sy.
        vstd::arithmetic::div_mod::lemma_fundamental_div_mod_converse(z * sy + y, sy, z, y);
        vstd::arithmetic::div_mod::lemma_div_denominator(i, sx, sy);
        assert(i / (sx * sy) == (i / sx) / sy);
    }

    /// Mapping a valid index to its coordinate and back is the identity.
    pub proof fn lemma_index_coord_roundtrip(self, index: int)
        requires
            self.wf(),
            0 <= index < self.stride.volume(),
        ensures
            self.index_of(self.coord_of(index)) == index,
            self.in_bounds(self.coord_of(index)),
    {
        lemma_coord_of_index(
            self.stride.x as int,
            self.stride.y as int,
            self.stride.z as int,
            index,
        );
    }
}

/// The row-major index of an in-bounds coordinate lies within the volume, and
/// every partial product stays within it (so the usize arithmetic is safe).
pub proof fn lemma_index_in_volume(sx: int, sy: int, sz: int, x: int, y: int, z: int)
    requires
        0 <= x < sx,
        0 <= y < sy,
        0 <= z < sz,
    ensures
        0 <= z * (sx * sy) + y * sx + x < sx * sy * sz,
        sx * sy <= sx * sy * sz,
        z * (sx * sy) <= sx * sy * sz,
        y * sx + x < sx * sy,
{
    assert(0 <= z * (sx * sy) + y * sx + x < sx * sy * sz && sx * sy <= sx * sy * sz && z * (sx
        * sy) <= sx * sy * sz && y * sx + x < sx * sy) by (nonlinear_arith)
        requires
            0 <= x < sx,
            0 <= y < sy,
            0 <= z < sz,
    ;
}

/// Splitting a valid row-major index by division and remainder yields an
/// in-bounds coordinate that maps back to the same index.
pub proof fn lemma_coord_of_index(sx: int, sy: int, sz: int, i: int)
    requires
        0 <= sx,
        0 <= sy,
        0 <= sz,
        0 <= i < sx * sy * sz,
    ensures
        0 <= i % sx < sx,
        0 <= (i / sx) % sy < sy,
        0 <= i / (sx * sy) < sz,
        (i / (sx * sy)) * (sx * sy) + ((i / sx) % sy) * sx + i % sx == i,
        sx * sy <= sx * sy * sz,
        0 < sx && 0 < sy && 0 < sz,
{
    assert(0 < sx && 0 < sy && 0 < sz && sx * sy <= sx * sy * sz && i < (sx * sy) * sz)
        by (nonlinear_arith)
        requires
            0 <= sx,
            0 <= sy,
            0 <= sz,
            0 <= i < sx * sy * sz,
    ;
    vstd::arithmetic::div_mod::lemma_fundamental_div_mod(i, sx);
    vstd::arithmetic::div_mod::lemma_mod_bound(i, sx);
    let q = i / sx;
    assert(0 <= q) by (nonlinear_arith)
        requires
            0 <= i,
            0 < sx,
            sx * q + i % sx == i,
            0 <= i % sx < sx,
    ;
    vstd::arithmetic::div_mod::lemma_fundamental_div_mod(q, sy);
    vstd::arithmetic::div_mod::lemma_mod_bound(q, sy);
    vstd::arithmetic::div_mod::lemma_div_denominator(i, sx, sy);
    assert(i / (sx * sy) == q / sy);
    vstd::arithmetic::div_mod::lemma_multiply_divide_lt(i, sx * sy, sz);
    assert(0 <= q / sy) by (nonlinear_arith)
        requires
            0 <= q,
            0 < sy,
            sy * (q / sy) + q % sy == q,
            0 <= q % sy < sy,
    ;
    // Reassemble: i == sx * q + x and q == sy * z + y.
    assert((q / sy) * (sx * sy) + (q % sy) * sx + i % sx == i) by (nonlinear_arith)
        requires
            sx * q + i % sx == i,
            sy * (q / sy) + q % sy == q,
    ;
}

} // verus!
