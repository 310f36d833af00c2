//! Sparse, multi-resolution compression of dense volumetric scalar fields.
//!
//! A dense source volume (any implementor of the [`grid::Grid`] capability) is
//! partitioned into fixed-size 8x8x8 bricks. Each brick stores its local
//! density range as a pair of packed half-precision values; heterogeneous
//! bricks additionally store 8-bit quantized samples in a tightly packed
//! atlas, addressed through a bit-packed indirection table. A min/max mip
//! pyramid over the range table supports coarse empty-space skipping.
//!
//! Densities are exact fixed-point values (see [`density`]), so every stage of
//! construction and lookup, including the half-precision rounding of range
//! bounds, is carried out in verified integer arithmetic.

pub mod brick;
pub mod buf3d;
pub mod density;
pub mod grid;
pub mod pack;
pub mod source;
pub mod uvec3;
pub mod zip;
