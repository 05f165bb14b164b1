//! An exact ray-geometry kernel: homogeneous tuples, square matrices with
//! cofactor inversion, rays against transformed unit spheres, an ordered
//! intersection collection with hit selection, and Phong local lighting.
//!
//! All arithmetic is carried out on exact fractions of 64-bit integers, so
//! every contract speaks about true rational values rather than rounded ones.
//! Square roots are taken as the exact floor of the root on a fixed grid of
//! 1/65536, which coincides with the true root whenever that root lies on the
//! grid. A result that leaves the representable range is reported as an
//! explicit error, never as a silently wrong value.
use vstd::prelude::*;

pub mod frac;
pub mod scalar;
pub mod tuple;
pub mod matrix;
pub mod color;
pub mod lights;
pub mod material;
pub mod intersections;
pub mod sphere;
pub mod ray;
pub mod laws;
pub mod demo;

verus! {

/// Failure conditions the kernel reports instead of producing undefined or
/// silently truncated values.
#[derive(Clone, Copy, Debug, PartialEq, Eq, Structural)]
pub enum Error {
    /// The inverse of a matrix whose determinant is zero was requested.
    NotInvertible,
    /// A ray with a zero-length direction cannot be intersected.
    DegenerateDirection,
    /// A tuple of zero magnitude (on the root grid) cannot be normalized.
    ZeroMagnitudeNormalize,
    /// Division by a scalar that is exactly zero.
    DivisionByZero,
    /// An exact result does not fit the 64-bit fraction representation.
    OutOfRange,
}

} // verus!
