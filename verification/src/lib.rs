//! A dense, row-major matrix of 64-bit integers.
//!
//! The matrix is stored as a flat backing vector of length `rows * cols`,
//! with element `(i, j)` at flat offset `i * cols + j`.  Construction from
//! nested rows validates that the input is rectangular and non-empty;
//! addition and multiplication require compatible shapes and arithmetic
//! that stays within `i64`.

pub mod matrix;
pub mod render;

pub use crate::matrix::Matrix;
pub use crate::matrix::MatrixError;
