//! Utilities for preparing 3D Gaussian splat batches for rendering: a
//! deterministic fixed-point radix sort that orders splats back-to-front
//! along the camera's view axis, attribute reordering through the sorted
//! permutation, and bit-exact packing of per-splat covariance matrices and
//! colors into a GPU texture layout.
//!
//! Floating-point inputs (positions, scales, rotations, the view matrix) are
//! handled as their IEEE 754 binary32 bit patterns (`u32`), so that every
//! arithmetic step is integer arithmetic with an exact contract.

pub mod depth;
pub mod fp;
pub mod gather;
pub mod half;
pub mod sort;
pub mod splats;
pub mod texture;
pub mod timer;

use vstd::prelude::*;

verus! {

/// How a pipeline operation can fail.  Degenerate numeric inputs are not an
/// error: they are sanitized deterministically when depth keys are formed.
#[derive(Clone, Copy, Debug, PartialEq, Eq, Structural)]
pub enum SplatError {
    /// An input array's length does not match the declared splat count, or
    /// the view matrix is not exactly 16 entries.
    InputLengthMismatch,
    /// A gather index addresses a splat at or beyond the declared count.
    IndexOutOfRange,
}

impl SplatError {
    /// A short description of the failure.
    pub fn message(&self) -> (r: &'static str)
        ensures
            self is InputLengthMismatch ==> r@ == "input array length mismatch"@,
            self is IndexOutOfRange ==> r@ == "index out of range"@,
    {
        match self {
            SplatError::InputLengthMismatch => "input array length mismatch",
            SplatError::IndexOutOfRange => "index out of range",
        }
    }
}

} // verus!
