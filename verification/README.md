# renoir GPU operators, verified core

The decision logic of the GPU-accelerated `map` and `reduce` operators of
the renoir stream processor, and its console formatting helpers, written
in Verus with their contracts proved.

- `src/operator/gpu/batch_strategy.rs` — batching strategies, the flush
  timer and the adaptive batch sizer (throughput compared exactly, as
  items over nanoseconds).
- `src/operator/gpu/map_gpu.rs` — the map operator's state machine: it
  buffers timestamps, decides flushes, pairs kernel outputs (also from
  pipelined kernels) with their inputs' timestamps, and orders emission.
- `src/operator/gpu/reduce_gpu.rs` — configuration, the batch buffer and
  its padding, the tiling of the two-pass reduction, and the reduce
  operator's state machine.
- `src/utils.rs` — banners and tables drawn with box-drawing characters.
- `app/` — the GPU side (CubeCL contexts, user kernels, the GPU
  reduction), drivers that run the state machines, and a printing table.
- `tests/` — executable tests of the library.
