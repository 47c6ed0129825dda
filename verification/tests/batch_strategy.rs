use std::time::{Duration, Instant};

use renoir::operator::gpu::batch_strategy::{AdaptiveSizer, BatchTimer, DEFAULT_FIXED_BATCH};
use renoir::operator::gpu::GpuBatchStrategy;

#[test]
fn strategy_constructors_and_sizes() {
    let f = GpuBatchStrategy::fixed(100);
    assert_eq!(f, GpuBatchStrategy::Fixed(100));
    assert_eq!(f.max_size(), 100);
    assert_eq!(f.target_size(), 100);

    let t = GpuBatchStrategy::timed(50, Duration::from_millis(100));
    assert_eq!(t.max_size(), 50);
    assert_eq!(t.target_size(), 50);

    let a = GpuBatchStrategy::adaptive(10, 500);
    assert_eq!(a.max_size(), 500);
    assert_eq!(a.target_size(), 10);
}

#[test]
fn strategy_default_is_ten_million() {
    let d = GpuBatchStrategy::default();
    assert_eq!(d, GpuBatchStrategy::Fixed(10_000_000));
    assert_eq!(DEFAULT_FIXED_BATCH, 10_000_000);
}

#[test]
fn timer_without_interval_never_flushes() {
    let timer = BatchTimer::new(&GpuBatchStrategy::fixed(10));
    assert!(!timer.should_flush());
    let timer = BatchTimer::new(&GpuBatchStrategy::adaptive(1, 10));
    assert!(!timer.should_flush());
}

#[test]
fn timer_with_zero_interval_flushes_at_once() {
    let mut timer = BatchTimer::new(&GpuBatchStrategy::timed(10, Duration::from_nanos(0)));
    assert!(timer.should_flush());
    timer.record_flush();
    assert!(timer.should_flush());
}

#[test]
fn timer_with_long_interval_waits() {
    let mut timer = BatchTimer::new(&GpuBatchStrategy::timed(10, Duration::from_secs(3600)));
    assert!(!timer.should_flush());
    timer.record_flush();
    assert!(!timer.should_flush());
}

#[test]
fn sizer_starts_at_minimum() {
    let s = AdaptiveSizer::new(&GpuBatchStrategy::adaptive(100, 1000));
    assert_eq!(s.current_size(), 100);
    let s = AdaptiveSizer::new(&GpuBatchStrategy::fixed(7));
    assert_eq!(s.current_size(), 7);
    let s = AdaptiveSizer::new(&GpuBatchStrategy::timed(9, Duration::from_millis(1)));
    assert_eq!(s.current_size(), 9);
}

#[test]
fn sizer_doubles_on_improvement_up_to_max() {
    let mut s = AdaptiveSizer::new(&GpuBatchStrategy::adaptive(100, 300));
    // First observation only records the throughput.
    s.observe(100, 1_000);
    assert_eq!(s.current_size(), 100);
    // 200 items / 1000 ns is twice as fast: double.
    s.observe(200, 1_000);
    assert_eq!(s.current_size(), 200);
    // Faster again: doubling is capped at the maximum.
    s.observe(1_000, 1_000);
    assert_eq!(s.current_size(), 300);
    // Even faster, but already at the maximum.
    s.observe(5_000, 1_000);
    assert_eq!(s.current_size(), 300);
}

#[test]
fn sizer_halves_on_degradation_down_to_min() {
    let mut s = AdaptiveSizer::new(&GpuBatchStrategy::adaptive(100, 1000));
    s.observe(100, 100);
    s.observe(1000, 100); // improved: 200
    s.observe(10_000, 100); // improved: 400
    assert_eq!(s.current_size(), 400);
    s.observe(100, 100); // much slower: 200
    assert_eq!(s.current_size(), 200);
    s.observe(10, 100); // slower: halved to 100
    assert_eq!(s.current_size(), 100);
    s.observe(1, 100); // slower, but at the minimum
    assert_eq!(s.current_size(), 100);
}

#[test]
fn sizer_keeps_size_within_five_percent() {
    let mut s = AdaptiveSizer::new(&GpuBatchStrategy::adaptive(10, 1000));
    s.observe(1000, 1000);
    // 1.04 times faster: not enough.
    s.observe(1040, 1000);
    assert_eq!(s.current_size(), 10);
    // 1.06 times faster than 1.04: grow.
    s.observe(1103, 1000);
    assert_eq!(s.current_size(), 20);
    // 0.81 times: not a degradation.
    s.observe(894, 1000);
    assert_eq!(s.current_size(), 20);
}

#[test]
fn sizer_zero_durations() {
    let mut s = AdaptiveSizer::new(&GpuBatchStrategy::adaptive(10, 1000));
    s.observe(100, 1000);
    // An instantaneous batch counts as an unbounded throughput.
    s.observe(100, 0);
    assert_eq!(s.current_size(), 20);
    // After an unbounded one, any finite throughput is a degradation.
    s.observe(100, 1000);
    assert_eq!(s.current_size(), 10);
}

#[test]
fn sizer_update_with_duration() {
    let mut s = AdaptiveSizer::new(&GpuBatchStrategy::adaptive(10, 1000));
    s.update(1000, Duration::from_millis(10));
    s.update(4000, Duration::from_millis(10));
    assert_eq!(s.current_size(), 20);
    s.update(100, Duration::from_millis(10));
    assert_eq!(s.current_size(), 10);
}

#[test]
fn timer_is_due_compares_with_interval() {
    let timer = BatchTimer::new(&GpuBatchStrategy::timed(10, Duration::from_millis(5)));
    assert!(!timer.is_due(Duration::from_millis(4)));
    assert!(!timer.is_due(Duration::from_nanos(4_999_999)));
    assert!(timer.is_due(Duration::from_millis(5)));
    assert!(timer.is_due(Duration::from_secs(1)));
    let timer = BatchTimer::new(&GpuBatchStrategy::fixed(10));
    assert!(!timer.is_due(Duration::from_secs(1_000)));
}

#[test]
fn sizer_update_reads_whole_nanoseconds() {
    // 1000 items in 1 s, then 1000 items in 0.5 s plus 1 ns: just under
    // twice as fast, which is an improvement; the seconds and the
    // fractional nanoseconds both count.
    let mut s = AdaptiveSizer::new(&GpuBatchStrategy::adaptive(10, 1000));
    s.update(1000, Duration::new(1, 0));
    s.update(1000, Duration::new(0, 500_000_001));
    assert_eq!(s.current_size(), 20);
    // 1000 items in 1 s and 300 ms: slower than 80% of the last rate.
    s.update(1000, Duration::new(1, 300_000_000));
    assert_eq!(s.current_size(), 10);
}

#[test]
fn timer_counts_from_its_start_and_restart() {
    let strategy = GpuBatchStrategy::timed(10, Duration::from_secs(60));
    let long_ago = Instant::now()
        .checked_sub(Duration::from_secs(120))
        .expect("the clock is far enough from its origin");
    let mut timer = BatchTimer::start_at(&strategy, long_ago);
    // Started two minutes ago with a one-minute interval: due.
    assert!(timer.should_flush());
    timer.restart_at(Instant::now());
    // Restarted just now: not due.
    assert!(!timer.should_flush());
    timer.restart_at(long_ago);
    assert!(timer.should_flush());
    timer.record_flush();
    assert!(!timer.should_flush());
}

#[test]
fn sizer_compares_very_long_durations_exactly() {
    let mut s = AdaptiveSizer::new(&GpuBatchStrategy::adaptive(10, 1000));
    // Both durations are far beyond 64 bits of nanoseconds.
    s.update(1000, Duration::from_secs(u64::MAX));
    s.update(1000, Duration::from_secs(u64::MAX / 4));
    assert_eq!(s.current_size(), 20);
    let mut t = AdaptiveSizer::new(&GpuBatchStrategy::adaptive(10, 1000));
    t.observe(1, 1u128 << 100);
    t.observe(3, 1u128 << 100);
    assert_eq!(t.current_size(), 20);
    t.observe(3, (1u128 << 127) + 5);
    assert_eq!(t.current_size(), 10);
}
