use std::time::{Duration, Instant};

use renoir::operator::gpu::map_gpu::{MapAction, MapGpu};
use renoir::operator::gpu::GpuBatchStrategy;
use renoir::operator::StreamElement;

/// A CPU stand-in for a GPU kernel that squares its inputs; a pipelined
/// one returns each batch's outputs at the following flush.
struct FakeKernel {
    buffer: Vec<i64>,
    pipelined: bool,
    in_flight: Vec<i64>,
    flushes: Vec<usize>,
}

impl FakeKernel {
    fn new(pipelined: bool) -> Self {
        FakeKernel { buffer: Vec::new(), pipelined, in_flight: Vec::new(), flushes: Vec::new() }
    }

    fn flush(&mut self) -> Vec<i64> {
        self.flushes.push(self.buffer.len());
        let now: Vec<i64> = self.buffer.drain(..).map(|x| x * x).collect();
        if self.pipelined {
            std::mem::replace(&mut self.in_flight, now)
        } else {
            now
        }
    }

    fn drain(&mut self) -> Vec<i64> {
        std::mem::take(&mut self.in_flight)
    }
}

/// Drives the map state machine over `input` until `count` elements have
/// been emitted.
fn run_map(
    state: &mut MapGpu<i64>,
    kernel: &mut FakeKernel,
    input: Vec<StreamElement<i64>>,
    count: usize,
) -> Vec<StreamElement<i64>> {
    state.setup();
    let mut input = input.into_iter();
    let mut out = Vec::new();
    let mut action: MapAction<i64, i64> = state.poll();
    while out.len() < count {
        action = match action {
            MapAction::Pull => {
                let e = input.next().unwrap_or(StreamElement::Terminate);
                state.on_element(e, kernel.buffer.len())
            }
            MapAction::Push(x) => {
                kernel.buffer.push(x);
                state.on_pushed(kernel.buffer.len())
            }
            MapAction::Flush => {
                let outputs = kernel.flush();
                assert!(state.accepts_flush_outputs(outputs.len()));
                state.on_flushed(outputs, Duration::from_micros(10), Instant::now())
            }
            MapAction::Drain => {
                let outputs = kernel.drain();
                assert!(state.accepts_drained_outputs(outputs.len()));
                state.on_drained(outputs)
            }
            MapAction::Emit(e) => {
                out.push(e);
                state.poll()
            }
        };
    }
    out
}

fn items(range: std::ops::RangeInclusive<i64>) -> Vec<StreamElement<i64>> {
    range.map(StreamElement::Item).collect()
}

#[test]
fn map_fixed_batches_preserve_order() {
    let mut state = MapGpu::with_strategy(GpuBatchStrategy::fixed(4));
    let mut kernel = FakeKernel::new(false);
    let out = run_map(&mut state, &mut kernel, items(1..=10), 11);
    let expected: Vec<_> = (1..=10).map(|i| StreamElement::Item(i * i)).collect();
    assert_eq!(&out[..10], &expected[..]);
    assert_eq!(out[10], StreamElement::Terminate);
    assert_eq!(kernel.flushes, vec![4, 4, 2]);
}

#[test]
fn map_pipelined_kernel_keeps_order_and_timestamps() {
    let mut state = MapGpu::with_strategy(GpuBatchStrategy::fixed(3));
    let mut kernel = FakeKernel::new(true);
    let input: Vec<_> = (1..=7).map(|i| StreamElement::Timestamped(i, 100 + i)).collect();
    let out = run_map(&mut state, &mut kernel, input, 8);
    let expected: Vec<_> = (1..=7).map(|i| StreamElement::Timestamped(i * i, 100 + i)).collect();
    assert_eq!(&out[..7], &expected[..]);
    assert_eq!(out[7], StreamElement::Terminate);
}

#[test]
fn map_watermark_after_outputs() {
    let mut state = MapGpu::with_strategy(GpuBatchStrategy::fixed(100));
    let mut kernel = FakeKernel::new(false);
    let input = vec![
        StreamElement::Timestamped(2, 5),
        StreamElement::Watermark(6),
        StreamElement::Item(3),
        StreamElement::Watermark(4),
        StreamElement::FlushAndRestart,
        StreamElement::Item(5),
        StreamElement::Terminate,
    ];
    let out = run_map(&mut state, &mut kernel, input, 7);
    assert_eq!(
        out,
        vec![
            StreamElement::Timestamped(4, 5),
            StreamElement::Item(9),
            StreamElement::Watermark(6),
            StreamElement::FlushAndRestart,
            StreamElement::Item(25),
            StreamElement::Terminate,
            StreamElement::Terminate,
        ]
    );
}

#[test]
fn map_flush_batch_forces_flush() {
    let mut state = MapGpu::with_strategy(GpuBatchStrategy::fixed(1000));
    let mut kernel = FakeKernel::new(false);
    let input = vec![
        StreamElement::Item(1),
        StreamElement::Item(2),
        StreamElement::FlushBatch,
        StreamElement::FlushBatch,
        StreamElement::Item(3),
    ];
    let out = run_map(&mut state, &mut kernel, input, 4);
    assert_eq!(
        out,
        vec![
            StreamElement::Item(1),
            StreamElement::Item(4),
            StreamElement::Item(9),
            StreamElement::Terminate,
        ]
    );
    // The second FlushBatch finds nothing to flush.
    assert_eq!(kernel.flushes, vec![2, 1]);
}

#[test]
fn map_empty_stream() {
    let mut state = MapGpu::with_strategy(GpuBatchStrategy::fixed(10));
    let mut kernel = FakeKernel::new(false);
    let out = run_map(&mut state, &mut kernel, vec![], 2);
    assert_eq!(out, vec![StreamElement::Terminate, StreamElement::Terminate]);
    assert!(kernel.flushes.is_empty());
}

#[test]
fn map_timed_strategy_flushes_on_size_or_time() {
    // A zero interval makes every push due.
    let mut state = MapGpu::with_strategy(GpuBatchStrategy::timed(10, Duration::from_nanos(0)));
    let mut kernel = FakeKernel::new(false);
    let out = run_map(&mut state, &mut kernel, items(1..=3), 4);
    assert_eq!(kernel.flushes, vec![1, 1, 1]);
    assert_eq!(out[2], StreamElement::Item(9));
    // A long interval flushes on size only.
    let mut state = MapGpu::with_strategy(GpuBatchStrategy::timed(2, Duration::from_secs(3600)));
    let mut kernel = FakeKernel::new(false);
    let out = run_map(&mut state, &mut kernel, items(1..=5), 6);
    assert_eq!(kernel.flushes, vec![2, 2, 1]);
    assert_eq!(out[4], StreamElement::Item(25));
}

#[test]
fn map_adaptive_strategy_starts_at_minimum() {
    let mut state = MapGpu::with_strategy(GpuBatchStrategy::adaptive(2, 8));
    let mut kernel = FakeKernel::new(false);
    let out = run_map(&mut state, &mut kernel, items(1..=3), 4);
    assert_eq!(kernel.flushes[0], 2);
    assert_eq!(out[3], StreamElement::Terminate);
}

#[test]
fn map_default_strategy_and_capacity() {
    let state: MapGpu<i64> = MapGpu::new();
    assert_eq!(state.strategy(), GpuBatchStrategy::Fixed(10_000_000));
    assert_eq!(state.initial_capacity(), 10_000_000);
    let big: MapGpu<i64> = MapGpu::with_strategy(GpuBatchStrategy::fixed(60_000_000));
    assert_eq!(big.initial_capacity(), 50_000_000);
}

#[test]
fn map_should_flush_thresholds() {
    let state: MapGpu<i64> = MapGpu::with_strategy(GpuBatchStrategy::fixed(3));
    assert!(!state.should_flush(0));
    assert!(!state.should_flush(2));
    assert!(state.should_flush(3));
    assert!(state.should_flush(4));
}

#[test]
fn map_rejects_mismatched_outputs() {
    let mut state: MapGpu<i64> = MapGpu::with_strategy(GpuBatchStrategy::fixed(2));
    let mut kernel = FakeKernel::new(true);
    // First batch of two: a pipelined kernel returns nothing yet.
    let a: MapAction<i64, i64> = state.on_element(StreamElement::Item(1), 0);
    assert_eq!(a, MapAction::Push(1));
    kernel.buffer.push(1);
    assert_eq!(state.on_pushed::<i64>(1), MapAction::Pull);
    let _ = state.on_element::<i64>(StreamElement::Item(2), 1);
    kernel.buffer.push(2);
    assert_eq!(state.on_pushed::<i64>(2), MapAction::Flush);
    let outputs = kernel.flush();
    assert!(outputs.is_empty());
    let _ = state.on_flushed::<i64>(outputs, Duration::from_micros(1), Instant::now());
    // Two pending; one buffered: three outputs match neither.
    let _ = state.on_element::<i64>(StreamElement::Item(3), 0);
    assert!(!state.accepts_flush_outputs(3));
    assert!(state.accepts_flush_outputs(2));
    assert!(state.accepts_flush_outputs(1));
    assert!(state.accepts_flush_outputs(0));
    assert!(state.accepts_drained_outputs(2));
    assert!(!state.accepts_drained_outputs(1));
}

#[test]
fn map_clone_continues_independently() {
    let mut state = MapGpu::with_strategy(GpuBatchStrategy::fixed(100));
    let _ = state.on_element::<i64>(StreamElement::Timestamped(3, 7), 0);
    let mut copy = state.clone();
    assert_eq!(copy.buffered_count(), 1);
    let mut kernel = FakeKernel::new(false);
    kernel.buffer.push(3);
    assert_eq!(copy.on_element::<i64>(StreamElement::FlushBatch, 1), MapAction::Flush);
    let outputs = kernel.flush();
    assert_eq!(
        copy.on_flushed::<i64>(outputs, Duration::from_micros(1), Instant::now()),
        MapAction::Emit(StreamElement::Timestamped(9, 7))
    );
    // The operator it was cloned from still holds its buffered timestamp.
    assert_eq!(state.buffered_count(), 1);
    assert_eq!(state.pending_count(), 0);
}

#[test]
fn map_rejects_wrong_count_from_plain_kernel() {
    let mut state: MapGpu<i64> = MapGpu::with_strategy(GpuBatchStrategy::fixed(2));
    let _ = state.on_element::<i64>(StreamElement::Item(1), 0);
    let _ = state.on_pushed::<i64>(1);
    let _ = state.on_element::<i64>(StreamElement::Item(2), 1);
    assert_eq!(state.on_pushed::<i64>(2), MapAction::Flush);
    // Nothing pending: only none or one output per flushed item fits.
    assert!(state.accepts_flush_outputs(0));
    assert!(state.accepts_flush_outputs(2));
    assert!(!state.accepts_flush_outputs(1));
    assert!(!state.accepts_flush_outputs(3));
    let fresh: MapGpu<i64> = MapGpu::with_strategy(GpuBatchStrategy::fixed(2));
    assert!(fresh.accepts_flush_outputs(0));
    assert!(!fresh.accepts_flush_outputs(1));
}

#[test]
fn map_flush_due_takes_the_timer_answer() {
    let timed: MapGpu<i64> =
        MapGpu::with_strategy(GpuBatchStrategy::timed(10, Duration::from_secs(3600)));
    assert!(!timed.flush_due(0, true));
    assert!(!timed.flush_due(3, false));
    assert!(timed.flush_due(3, true));
    assert!(timed.flush_due(10, false));
    let fixed: MapGpu<i64> = MapGpu::with_strategy(GpuBatchStrategy::fixed(10));
    assert!(!fixed.flush_due(3, true));
    assert!(fixed.flush_due(10, false));
}

#[test]
fn map_flush_restarts_the_timer_from_the_given_instant() {
    let long_ago = Instant::now()
        .checked_sub(Duration::from_secs(120))
        .expect("the clock is far enough from its origin");
    for (flushed_at, next_push_flushes) in [(Instant::now(), false), (long_ago, true)] {
        let mut state: MapGpu<i64> =
            MapGpu::with_strategy(GpuBatchStrategy::timed(10, Duration::from_secs(60)));
        let _ = state.on_element::<i64>(StreamElement::Item(1), 0);
        assert_eq!(state.on_pushed::<i64>(1), MapAction::Pull);
        assert_eq!(state.on_element::<i64>(StreamElement::FlushBatch, 1), MapAction::Flush);
        assert_eq!(
            state.on_flushed::<i64>(vec![1], Duration::from_micros(1), flushed_at),
            MapAction::Emit(StreamElement::Item(1))
        );
        let _ = state.on_element::<i64>(StreamElement::Item(2), 0);
        let expected = if next_push_flushes { MapAction::Flush } else { MapAction::Pull };
        assert_eq!(state.on_pushed::<i64>(1), expected);
    }
}
