//! Verified square-matrix multiplication: the classical triple-loop algorithm
//! and Strassen's divide-and-conquer algorithm, over arbitrary-precision
//! integers, with an instrumented variant that tallies scalar operations.

pub mod scalar;
pub mod sums;
pub mod matrix;
pub mod engine;
pub mod count;
pub mod api;
pub mod laws;
