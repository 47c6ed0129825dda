use renoir::operator::gpu::reduce_gpu::{
    reduce_layout, tile_layout, BatchStorage, GpuPrecision, ReduceAction, ReduceGpu, ReduceGpuError, ResolvedBackend,
    DEFAULT_BATCH_SIZE, DEFAULT_TILE_SIZE,
};
use renoir::operator::gpu::{ReduceGpuBackend, ReduceGpuConfig, ReduceKernel};
use renoir::operator::StreamElement;

#[test]
fn kernel_labels() {
    assert_eq!(ReduceKernel::Sum.label(), "sum");
    assert_eq!(ReduceKernel::Product.label(), "product");
    assert_eq!(ReduceKernel::Min.label(), "min");
    assert_eq!(ReduceKernel::Max.label(), "max");
}

#[test]
fn config_defaults_and_builders() {
    let c = ReduceGpuConfig::default();
    assert_eq!(c.batch_size, 65_536);
    assert_eq!(c.tile_size, 262_144);
    assert_eq!(DEFAULT_BATCH_SIZE, 1 << 16);
    assert_eq!(DEFAULT_TILE_SIZE, 1 << 18);
    assert_eq!(c.backend, ReduceGpuBackend::Wgpu);
    assert_eq!(ReduceGpuBackend::default(), ReduceGpuBackend::Wgpu);

    let c = c.with_batch_size(0).with_tile_size(0).with_backend(ReduceGpuBackend::Auto);
    assert_eq!(c.batch_size, 1);
    assert_eq!(c.tile_size, 1);
    assert_eq!(c.backend, ReduceGpuBackend::Auto);
    let c = c.with_batch_size(10).with_tile_size(4);
    assert_eq!(c.batch_size, 10);
    assert_eq!(c.tile_size, 4);
}

#[test]
fn backend_resolution() {
    let err = ReduceGpuError::GpuUnavailable("no adapter".to_string());
    let cuda_err = ReduceGpuError::GpuUnavailable("no cuda device".to_string());
    // Auto prefers WGPU, falls back to CUDA, else reports no backend.
    assert_eq!(ReduceGpuBackend::Auto.resolve_backend(Ok(()), Ok(())), Ok(ResolvedBackend::Wgpu));
    assert_eq!(
        ReduceGpuBackend::Auto.resolve_backend(Ok(()), Err(cuda_err.clone())),
        Ok(ResolvedBackend::Wgpu)
    );
    assert_eq!(
        ReduceGpuBackend::Auto.resolve_backend(Err(err.clone()), Ok(())),
        Ok(ResolvedBackend::Cuda)
    );
    assert_eq!(
        ReduceGpuBackend::Auto.resolve_backend(Err(err.clone()), Err(cuda_err.clone())),
        Err(ReduceGpuError::NoAvailableBackend)
    );
    // Explicit requests get their runtime or its error.
    assert_eq!(
        ReduceGpuBackend::Wgpu.resolve_backend(Ok(()), Err(cuda_err.clone())),
        Ok(ResolvedBackend::Wgpu)
    );
    assert_eq!(
        ReduceGpuBackend::Wgpu.resolve_backend(Err(err.clone()), Ok(())),
        Err(err.clone())
    );
    assert_eq!(
        ReduceGpuBackend::Cuda.resolve_backend(Err(err.clone()), Ok(())),
        Ok(ResolvedBackend::Cuda)
    );
    assert_eq!(
        ReduceGpuBackend::Cuda.resolve_backend(Ok(()), Err(cuda_err.clone())),
        Err(cuda_err)
    );
    assert_eq!(ResolvedBackend::Wgpu.precision(), GpuPrecision::F32);
    assert_eq!(ResolvedBackend::Cuda.precision(), GpuPrecision::F64);
}

#[test]
fn batch_storage_basics() {
    let mut b: BatchStorage<f32> = BatchStorage::new(4);
    assert!(b.is_empty());
    b.push(1.0);
    b.push(2.0);
    assert_eq!(b.len(), 2);
    assert_eq!(b.as_slice(), &[1.0, 2.0]);
    b.clear();
    assert!(b.is_empty());
}

#[test]
fn pad_to_multiple_cases() {
    let mut b: BatchStorage<i32> = BatchStorage::new(0);
    for v in 1..=5 {
        b.push(v);
    }
    // Tile larger than the batch: unchanged.
    b.pad_to_multiple(8, 0);
    assert_eq!(b.as_slice(), &[1, 2, 3, 4, 5]);
    // Zero tile: unchanged.
    b.pad_to_multiple(0, 0);
    assert_eq!(b.len(), 5);
    // Divisor: unchanged.
    b.pad_to_multiple(5, 0);
    assert_eq!(b.len(), 5);
    // 5 -> 6 with tile 3.
    b.pad_to_multiple(3, 9);
    assert_eq!(b.as_slice(), &[1, 2, 3, 4, 5, 9]);
    // 6 -> 8 with tile 4.
    b.pad_to_multiple(4, 7);
    assert_eq!(b.as_slice(), &[1, 2, 3, 4, 5, 9, 7, 7]);
    assert_eq!(b.len() % 4, 0);
}

#[test]
fn tile_layout_cases() {
    assert_eq!(tile_layout(10, 4), (4, 2));
    assert_eq!(tile_layout(10, 0), (1, 10));
    assert_eq!(tile_layout(10, 100), (10, 1));
    assert_eq!(tile_layout(12, 4), (4, 3));
}

fn config(batch: usize, tile: usize) -> ReduceGpuConfig {
    ReduceGpuConfig::default().with_batch_size(batch).with_tile_size(tile)
}

/// Runs the reduce state machine over `input`, reducing each flushed batch
/// on the CPU with `f`, starting from `identity`.
fn run_reduce(
    state: &mut ReduceGpu<f64, f64>,
    input: Vec<StreamElement<f64>>,
    identity: f64,
    f: fn(f64, f64) -> f64,
    max_out: usize,
) -> (Vec<StreamElement<f64>>, Vec<usize>) {
    let mut input = input.into_iter();
    let mut out = Vec::new();
    let mut flushed_sizes = Vec::new();
    let mut action = state.poll();
    while out.len() < max_out {
        action = match action {
            ReduceAction::Pull => {
                let e = input.next().unwrap_or(StreamElement::Terminate);
                state.on_element(e)
            }
            ReduceAction::Flush => {
                let tile = state.prepare_flush(identity);
                let values = state.batch_values().to_vec();
                assert_eq!(values.len() % tile, 0);
                flushed_sizes.push(values.len());
                let partial = values.iter().fold(identity, |a, b| f(a, *b));
                let merged = match state.accumulator() {
                    Some(acc) => f(acc, partial),
                    None => partial,
                };
                state.flush_done(merged)
            }
            ReduceAction::Emit(e) => {
                out.push(e);
                state.poll()
            }
        };
    }
    (out, flushed_sizes)
}

#[test]
fn reduce_sum_in_batches() {
    let mut state: ReduceGpu<f64, f64> = ReduceGpu::new(ReduceKernel::Sum, config(4, 3));
    let input: Vec<_> = (1..=10).map(|i| StreamElement::Item(i as f64)).collect();
    let (out, sizes) = run_reduce(&mut state, input, 0.0, |a, b| a + b, 3);
    assert_eq!(out[0], StreamElement::Item(55.0));
    assert_eq!(out[1], StreamElement::Terminate);
    assert_eq!(out[2], StreamElement::Terminate);
    // Batches of 4 (padded to 6 with tile 3), 4, then the last 2 (tile 2).
    assert_eq!(sizes, vec![6, 6, 2]);
}

#[test]
fn reduce_timestamps_and_watermarks() {
    let mut state: ReduceGpu<f64, f64> = ReduceGpu::new(ReduceKernel::Max, config(100, 8));
    let input = vec![
        StreamElement::Timestamped(3.0, 10),
        StreamElement::Watermark(5),
        StreamElement::Timestamped(7.0, 4),
        StreamElement::Watermark(9),
        StreamElement::Watermark(2),
        StreamElement::Terminate,
    ];
    let (out, _) = run_reduce(&mut state, input, f64::NEG_INFINITY, f64::max, 3);
    assert_eq!(out[0], StreamElement::Timestamped(7.0, 10));
    assert_eq!(out[1], StreamElement::Watermark(9));
    assert_eq!(out[2], StreamElement::Terminate);
}

#[test]
fn reduce_restarts_after_iteration() {
    let mut state: ReduceGpu<f64, f64> = ReduceGpu::new(ReduceKernel::Product, config(100, 8));
    let input = vec![
        StreamElement::Item(2.0),
        StreamElement::Item(3.0),
        StreamElement::FlushAndRestart,
        StreamElement::Item(5.0),
        StreamElement::Terminate,
    ];
    let (out, _) = run_reduce(&mut state, input, 1.0, |a, b| a * b, 4);
    assert_eq!(out[0], StreamElement::Item(6.0));
    assert_eq!(out[1], StreamElement::FlushAndRestart);
    // Each iteration emits the reduction of its own values.
    assert_eq!(out[2], StreamElement::Item(5.0));
    assert_eq!(out[3], StreamElement::Terminate);
}

#[test]
fn reduce_flush_batch_and_empty_input() {
    let mut state: ReduceGpu<f64, f64> = ReduceGpu::new(ReduceKernel::Min, config(100, 8));
    let input = vec![
        StreamElement::FlushBatch,
        StreamElement::Item(4.0),
        StreamElement::FlushBatch,
        StreamElement::Item(1.0),
        StreamElement::Terminate,
    ];
    let (out, sizes) = run_reduce(&mut state, input, f64::INFINITY, f64::min, 2);
    assert_eq!(sizes, vec![1, 1]);
    assert_eq!(out[0], StreamElement::Item(1.0));
    assert_eq!(out[1], StreamElement::Terminate);

    let mut empty: ReduceGpu<f64, f64> = ReduceGpu::new(ReduceKernel::Sum, config(100, 8));
    let (out, sizes) = run_reduce(&mut empty, vec![], 0.0, |a, b| a + b, 1);
    assert!(sizes.is_empty());
    assert_eq!(out[0], StreamElement::Terminate);
}

#[test]
fn reduce_single_element() {
    let mut state: ReduceGpu<f64, f64> = ReduceGpu::new(ReduceKernel::Sum, ReduceGpuConfig::default());
    let (out, _) = run_reduce(&mut state, vec![StreamElement::Item(42.0)], 0.0, |a, b| a + b, 1);
    assert_eq!(out[0], StreamElement::Item(42.0));
}

#[test]
fn reduce_clone_reset_starts_fresh() {
    let mut state: ReduceGpu<f64, f64> = ReduceGpu::new(ReduceKernel::Sum, config(100, 8));
    assert_eq!(state.on_element(StreamElement::Item(1.0)), ReduceAction::Pull);
    let fresh = state.clone_reset();
    assert!(fresh.batch_values().is_empty());
    assert_eq!(fresh.kernel(), ReduceKernel::Sum);
    assert_eq!(state.batch_values(), &[1.0]);
}

#[test]
fn reduce_layout_cases() {
    let l = reduce_layout(12, 4, 4);
    assert_eq!((l.tile, l.tiles), (4, 3));
    assert_eq!(l.input_shape, [3, 4]);
    assert_eq!(l.input_strides, [4, 1]);
    assert_eq!(l.partial_shape, [3, 1]);
    assert_eq!(l.partial_strides, [1, 1]);
    assert_eq!(l.partials_shape, [3]);
    assert_eq!(l.partials_strides, [1]);
    assert_eq!(l.result_shape, [1]);
    assert_eq!(l.result_strides, [1]);
    assert_eq!(l.partial_bytes, 12);
    let l = reduce_layout(5, 0, 8);
    assert_eq!((l.tile, l.tiles, l.partial_bytes), (1, 5, 40));
    let l = reduce_layout(5, 9, 8);
    assert_eq!((l.tile, l.tiles, l.partial_bytes), (5, 1, 8));
}

#[test]
fn backend_devices_opened_only_when_consulted() {
    assert!(ReduceGpuBackend::Auto.needs_wgpu());
    assert!(ReduceGpuBackend::Wgpu.needs_wgpu());
    assert!(!ReduceGpuBackend::Cuda.needs_wgpu());
    assert!(ReduceGpuBackend::Cuda.needs_cuda(true));
    assert!(ReduceGpuBackend::Auto.needs_cuda(false));
    assert!(!ReduceGpuBackend::Auto.needs_cuda(true));
    assert!(!ReduceGpuBackend::Wgpu.needs_cuda(false));
}
