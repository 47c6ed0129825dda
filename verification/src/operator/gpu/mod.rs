//! GPU-accelerated operators: batching strategies and the state machines
//! that drive the map and reduce operators.
pub mod batch_strategy;

pub use batch_strategy::GpuBatchStrategy;
pub mod reduce_gpu;

pub use reduce_gpu::{ReduceGpuBackend, ReduceGpuConfig, ReduceKernel};
pub mod map_gpu;

pub use map_gpu::MapGpu;
