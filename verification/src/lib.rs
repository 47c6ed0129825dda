//! Verified core of the GPU operators of a streaming engine: batching
//! strategies, the decision logic of the GPU map and reduce operators,
//! and the console formatting helpers used by the examples.
pub mod operator;
pub mod utils;
