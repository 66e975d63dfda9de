//! Dense integer matrices multiplied by a pool of workers, each cell of the
//! product computed as an independent dot product and collected in order.

pub mod counters;
pub mod matrix;
pub mod metrics;
pub mod pool;
pub mod text;

pub use matrix::{dot_product, multiply, Matrix, MultiplyError};
