//! Lowering of model operators to GPU kernels.

pub mod compile;
pub mod lowering;
