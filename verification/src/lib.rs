//! A small model-inference runtime: a binary codec for tensors and graph
//! definitions, a graph executor that runs nodes in recorded order, and a
//! library of integer operator kernels with exact shape arithmetic.

pub mod error;
pub mod tensor;
pub mod wire;
pub mod model;
pub mod ops;
pub mod run;
pub mod classify;
