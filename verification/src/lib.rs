//! A fixed-size, generic two-dimensional dense array with element-wise and
//! linear-algebraic operations, stored row by row in one flat vector.
//!
//! Every operation states in its contract what it asks of its arguments and
//! what it returns, over [`MatrixView`], the mathematical value of a
//! [`Matrix`]. Lookups by `get`, `get_mut`, `set`, `get_row` and `get_col`
//! answer for every coordinate and report what lies outside the matrix as
//! absent. Constructors, operators and direct indexing state their demands as
//! preconditions, which Verus proves of every verified caller. The same
//! demands on shapes and coordinates are tested once more when the code runs,
//! so that a caller that was not verified stops at once instead of getting a
//! matrix of the wrong shape.

pub mod laws;
pub mod matrix;
pub mod neighbors;

pub use crate::matrix::{Matrix, MatrixView};
pub use crate::neighbors::Neighbor;
