//! Dense numeric containers: a one-dimensional `Array`, a two-dimensional
//! row-major `Matrix`, and a compact symmetric matrix `SymMat`, with
//! element-wise arithmetic, dot product, matrix product, transposition and
//! triangular zeroing, all with verified contracts.

pub mod array;
pub mod common;
pub mod matrix;
pub mod symmat;
