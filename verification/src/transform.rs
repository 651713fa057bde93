//! Column-major 4x4 transform, carried as opaque 64-bit words.
//!
//! The store never computes with matrix entries: it stores them, hands them
//! to the evaluator's composition callback, and returns them to backends.
//! Each entry is the raw 64-bit encoding of one real-valued coefficient in
//! the platform's interchange format; backends and callers interpret the
//! words. The identity matrix is the word pattern with ones on the diagonal.

use vstd::prelude::*;

verus! {

/// The 64-bit word encoding the coefficient one.
pub const COEFF_ONE: u64 = 0x3FF0_0000_0000_0000;

/// The 64-bit word encoding the coefficient zero.
pub const COEFF_ZERO: u64 = 0;

/// A column-major 4x4 transform stored as raw coefficient words.
///
/// Each inner array is one *column* of the matrix, matching the memory
/// layout used by GPU interfaces.
#[derive(Clone, Copy, PartialEq, Eq, Hash, Debug)]
pub struct Transform3d {
    /// Four columns, each a 4-element array of coefficient words.
    pub cols: [[u64; 4]; 4],
}

/// The identity matrix's word pattern.
pub open spec fn identity_spec() -> Transform3d {
    Transform3d {
        cols: [
            [COEFF_ONE, COEFF_ZERO, COEFF_ZERO, COEFF_ZERO],
            [COEFF_ZERO, COEFF_ONE, COEFF_ZERO, COEFF_ZERO],
            [COEFF_ZERO, COEFF_ZERO, COEFF_ONE, COEFF_ZERO],
            [COEFF_ZERO, COEFF_ZERO, COEFF_ZERO, COEFF_ONE],
        ],
    }
}

impl Transform3d {
    /// The 4x4 identity matrix.
    pub fn identity() -> (r: Self)
        ensures
            r == identity_spec(),
    {
        Transform3d {
            cols: [
                [COEFF_ONE, COEFF_ZERO, COEFF_ZERO, COEFF_ZERO],
                [COEFF_ZERO, COEFF_ONE, COEFF_ZERO, COEFF_ZERO],
                [COEFF_ZERO, COEFF_ZERO, COEFF_ONE, COEFF_ZERO],
                [COEFF_ZERO, COEFF_ZERO, COEFF_ZERO, COEFF_ONE],
            ],
        }
    }

    /// Creates a transform from four column arrays.
    pub fn from_cols(col0: [u64; 4], col1: [u64; 4], col2: [u64; 4], col3: [u64; 4]) -> (r: Self)
        ensures
            r.cols@ =~= seq![col0, col1, col2, col3],
    {
        Transform3d { cols: [col0, col1, col2, col3] }
    }

    /// Creates a transform from a column-major 2-D array of words.
    pub fn from_cols_array_2d(cols: [[u64; 4]; 4]) -> (r: Self)
        ensures
            r.cols == cols,
    {
        Transform3d { cols }
    }

    /// Returns the columns as a 2-D array of words.
    pub fn to_cols_array_2d(self) -> (r: [[u64; 4]; 4])
        ensures
            r == self.cols,
    {
        self.cols
    }

    /// Returns column `i`.
    pub fn col(self, i: usize) -> (r: [u64; 4])
        requires
            i < 4,
        ensures
            r == self.cols@[i as int],
    {
        self.cols[i]
    }
}

impl Default for Transform3d {
    /// The identity matrix.
    fn default() -> (r: Self)
        ensures
            r == identity_spec(),
    {
        Transform3d::identity()
    }
}

} // verus!
