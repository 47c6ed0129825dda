//! Batching strategies that decide when buffered items are sent to the GPU,
//! and the timers and sizers that carry their state.
use std::time::{Duration, Instant};

use vstd::prelude::*;

verus! {

#[verifier::external_type_specification]
#[verifier::external_body]
pub struct ExInstant(Instant);

/// Default size of a fixed batch: ten million items.
pub const DEFAULT_FIXED_BATCH: usize = 10_000_000;

/// Strategy for batching items before they are sent to the GPU.
#[derive(Debug, Clone, Copy, PartialEq)]
pub enum GpuBatchStrategy {
    /// Flush every N items.
    Fixed(usize),
    /// Flush after a time interval or when the buffer reaches `max_size`.
    Timed {
        /// Maximum number of items before a flush is forced.
        max_size: usize,
        /// Maximum time to wait before flushing.
        interval: Duration,
    },
    /// Grow or shrink the batch size between `min_size` and `max_size`
    /// according to the observed throughput.
    Adaptive {
        /// Smallest batch size.
        min_size: usize,
        /// Largest batch size.
        max_size: usize,
    },
}

impl GpuBatchStrategy {
    /// The largest batch that the strategy lets accumulate.
    pub open spec fn max_batch(self) -> usize {
        match self {
            GpuBatchStrategy::Fixed(size) => size,
            GpuBatchStrategy::Timed { max_size, .. } => max_size,
            GpuBatchStrategy::Adaptive { max_size, .. } => max_size,
        }
    }

    /// The batch size the strategy starts from.
    pub open spec fn target_batch(self) -> usize {
        match self {
            GpuBatchStrategy::Fixed(size) => size,
            GpuBatchStrategy::Timed { max_size, .. } => max_size,
            GpuBatchStrategy::Adaptive { min_size, .. } => min_size,
        }
    }

    /// The sizes are positive and, for the adaptive strategy, ordered.
    pub open spec fn well_formed(self) -> bool {
        match self {
            GpuBatchStrategy::Fixed(size) => size > 0,
            GpuBatchStrategy::Timed { max_size, .. } => max_size > 0,
            GpuBatchStrategy::Adaptive { min_size, max_size } => 0 < min_size <= max_size,
        }
    }

    /// Create a fixed-size batching strategy.
    pub fn fixed(size: usize) -> (s: Self)
        requires
            size > 0,
        ensures
            s == GpuBatchStrategy::Fixed(size),
            s.well_formed(),
    {
        GpuBatchStrategy::Fixed(size)
    }

    /// Create a time-based batching strategy.
    pub fn timed(max_size: usize, interval: Duration) -> (s: Self)
        requires
            max_size > 0,
        ensures
            s == (GpuBatchStrategy::Timed { max_size, interval }),
            s.well_formed(),
    {
        GpuBatchStrategy::Timed { max_size, interval }
    }

    /// Create an adaptive batching strategy that starts at `min_size` and
    /// may grow up to `max_size`.
    pub fn adaptive(min_size: usize, max_size: usize) -> (s: Self)
        requires
            min_size > 0,
            max_size >= min_size,
        ensures
            s == (GpuBatchStrategy::Adaptive { min_size, max_size }),
            s.well_formed(),
    {
        GpuBatchStrategy::Adaptive { min_size, max_size }
    }

    /// The maximum batch size of this strategy.
    pub fn max_size(&self) -> (r: usize)
        ensures
            r == self.max_batch(),
    {
        match self {
            GpuBatchStrategy::Fixed(size) => *size,
            GpuBatchStrategy::Timed { max_size, .. } => *max_size,
            GpuBatchStrategy::Adaptive { max_size, .. } => *max_size,
        }
    }

    /// The initial (target) batch size of this strategy.
    pub fn target_size(&self) -> (r: usize)
        ensures
            r == self.target_batch(),
    {
        match self {
            GpuBatchStrategy::Fixed(size) => *size,
            GpuBatchStrategy::Timed { max_size, .. } => *max_size,
            GpuBatchStrategy::Adaptive { min_size, .. } => *min_size,
        }
    }
}

impl Default for GpuBatchStrategy {
    /// Ten million items per batch.
    fn default() -> (s: Self)
        ensures
            s == GpuBatchStrategy::Fixed(DEFAULT_FIXED_BATCH),
    {
        GpuBatchStrategy::Fixed(DEFAULT_FIXED_BATCH)
    }
}


/// `std::time::Instant::now`: reads the monotonic clock. The instant depends
/// on the time of the call, so nothing is claimed about it.
#[verifier::external_body]
fn clock_now() -> Instant {
    Instant::now()
}

/// The time from `earlier` to `later`, zero when `later` comes first: what
/// `later.saturating_duration_since(earlier)` gives, and so what
/// `std::time::Instant::elapsed` measures from `earlier` when the clock
/// reads `later`.
pub uninterp spec fn elapsed_between(earlier: Instant, later: Instant) -> Duration;

/// `std::time::Instant::elapsed`: the time that has passed since `t`, as
/// measured at the clock's reading when it is called. Which reading that
/// is depends on the time of the call; only that the result is the time
/// from `t` to some reading is claimed.
#[verifier::external_body]
fn elapsed_since(t: &Instant) -> (r: Duration)
    ensures
        exists|now: Instant| r == #[trigger] elapsed_between(*t, now),
{
    t.elapsed()
}

/// The whole length of a duration in nanoseconds, as
/// `std::time::Duration::as_nanos` reports it.
pub uninterp spec fn nanos_of(d: Duration) -> u128;

/// `std::time::Duration::as_nanos`: the whole length of `d` in nanoseconds,
/// a function of `d` alone, named [`nanos_of`].
#[verifier::external_body]
fn duration_nanos(d: &Duration) -> (r: u128)
    ensures
        r == nanos_of(*d),
{
    d.as_nanos()
}

/// Keeps track of the time since the last flush, for the timed strategy.
#[derive(Debug, Clone, Copy)]
pub struct BatchTimer {
    last_flush: Instant,
    interval: Option<Duration>,
}

impl BatchTimer {
    /// The flush interval, present only for the timed strategy.
    pub closed spec fn interval(&self) -> Option<Duration> {
        self.interval
    }

    /// The instant of the last flush (or of the timer's start).
    pub closed spec fn started(&self) -> Instant {
        self.last_flush
    }

    /// A timer started at `now`; it has an interval only for the timed
    /// strategy.
    pub fn start_at(strategy: &GpuBatchStrategy, now: Instant) -> (t: Self)
        ensures
            t.interval() == (match *strategy {
                GpuBatchStrategy::Timed { interval, .. } => Some(interval),
                _ => None,
            }),
            t.started() == now,
    {
        let interval = match strategy {
            GpuBatchStrategy::Timed { interval, .. } => Some(*interval),
            _ => None,
        };
        BatchTimer { last_flush: now, interval }
    }

    /// Start a timer now (see [`BatchTimer::start_at`]); it has an interval
    /// only for the timed strategy.
    pub fn new(strategy: &GpuBatchStrategy) -> (t: Self)
        ensures
            t.interval() == (match *strategy {
                GpuBatchStrategy::Timed { interval, .. } => Some(interval),
                _ => None,
            }),
    {
        Self::start_at(strategy, clock_now())
    }

    /// Record that a flush occurred at `now`: the timer restarts from it.
    pub fn restart_at(&mut self, now: Instant)
        ensures
            final(self).started() == now,
            final(self).interval() == old(self).interval(),
    {
        self.last_flush = now;
    }

    /// Whether a flush is due once `elapsed` has passed since the last one:
    /// only with an interval, and once the interval has passed.
    pub fn is_due(&self, elapsed: Duration) -> (r: bool)
        ensures
            r == (match self.interval() {
                Some(i) => nanos_of(elapsed) >= nanos_of(i),
                None => false,
            }),
    {
        match &self.interval {
            Some(interval) => duration_nanos(&elapsed) >= duration_nanos(interval),
            None => false,
        }
    }

    /// Whether the interval has passed since the last flush, measured at
    /// the clock's reading when it is called. Without an interval this is
    /// never the case; with an empty one it always is.
    pub fn should_flush(&self) -> (r: bool)
        ensures
            self.interval() is None ==> !r,
            self.interval() matches Some(i) ==> exists|now: Instant|
                r == (nanos_of(#[trigger] elapsed_between(self.started(), now)) >= nanos_of(i)),
            self.interval() matches Some(i) && nanos_of(i) == 0 ==> r,
    {
        match &self.interval {
            Some(_) => {
                let elapsed = elapsed_since(&self.last_flush);
                let ghost now = choose|now: Instant| elapsed == elapsed_between(self.last_flush, now);
                let r = self.is_due(elapsed);
                assert(r == (nanos_of(elapsed_between(self.started(), now)) >= nanos_of(
                    self.interval()->Some_0,
                )));
                r
            },
            None => false,
        }
    }

    /// Record that a flush occurred now: the timer restarts from the
    /// clock's reading (see [`BatchTimer::restart_at`]).
    pub fn record_flush(&mut self)
        ensures
            final(self).interval() == old(self).interval(),
    {
        self.restart_at(clock_now());
    }
}

/// Throughput `ia / da` is more than 5% above throughput `ib / db`
/// (items over nanoseconds). A zero duration stands for an unbounded rate,
/// and `0 / 0` for an undefined one, which compares false with everything.
pub open spec fn rate_improved(ia: nat, da: nat, ib: nat, db: nat) -> bool {
    if da == 0 {
        ia > 0 && db > 0
    } else if db == 0 {
        false
    } else {
        20 * (ia * db) > 21 * (ib * da)
    }
}

/// Throughput `ia / da` is below 80% of throughput `ib / db`, with the same
/// reading of zero durations as [`rate_improved`].
pub open spec fn rate_degraded(ia: nat, da: nat, ib: nat, db: nat) -> bool {
    if da == 0 {
        false
    } else if db == 0 {
        ib > 0
    } else {
        5 * (ia * db) < 4 * (ib * da)
    }
}

/// The batch size chosen after a throughput observation: double (up to the
/// maximum) after an improvement, halve (down to the minimum) after a
/// degradation, keep it otherwise.
pub open spec fn next_batch_size(
    min_size: nat,
    max_size: nat,
    current: nat,
    improved: bool,
    degraded: bool,
) -> nat {
    if improved && current < max_size {
        if 2 * current < max_size { 2 * current } else { max_size }
    } else if degraded && current > min_size {
        if current / 2 > min_size { current / 2 } else { min_size }
    } else {
        current
    }
}

/// Tracks the batch size of the adaptive strategy from observed throughput.
#[derive(Debug, Clone)]
pub struct AdaptiveSizer {
    min_size: usize,
    max_size: usize,
    current_size: usize,
    /// Last observed throughput, as (items, nanoseconds).
    last_rate: Option<(usize, u128)>,
}

impl AdaptiveSizer {
    /// Smallest batch size.
    pub closed spec fn min(&self) -> nat {
        self.min_size as nat
    }

    /// Largest batch size.
    pub closed spec fn max(&self) -> nat {
        self.max_size as nat
    }

    /// Current batch size.
    pub closed spec fn current(&self) -> nat {
        self.current_size as nat
    }

    /// Last observed throughput as (items, nanoseconds), if any.
    pub closed spec fn last_rate(&self) -> Option<(nat, nat)> {
        match self.last_rate {
            Some((i, d)) => Some((i as nat, d as nat)),
            None => None,
        }
    }

    /// The sizes are ordered: minimum, current, maximum.
    pub open spec fn well_formed(&self) -> bool {
        self.min() <= self.current() <= self.max()
    }

    /// The state after observing `items` processed in `nanos` nanoseconds.
    pub open spec fn observed(&self, items: nat, nanos: nat, r: AdaptiveSizer) -> bool {
        let (improved, degraded) = match self.last_rate() {
            Some((li, ld)) => (rate_improved(items, nanos, li, ld), rate_degraded(items, nanos, li, ld)),
            None => (false, false),
        };
        &&& r.min() == self.min()
        &&& r.max() == self.max()
        &&& r.current() == next_batch_size(self.min(), self.max(), self.current(), improved, degraded)
        &&& r.last_rate() == Some((items, nanos))
    }

    /// A sizer for `strategy`: adaptive strategies start at their minimum,
    /// the others stay at their single size.
    pub fn new(strategy: &GpuBatchStrategy) -> (s: Self)
        ensures
            s.last_rate() is None,
            match *strategy {
                GpuBatchStrategy::Adaptive { min_size, max_size } => s.min() == min_size
                    && s.max() == max_size && s.current() == min_size,
                GpuBatchStrategy::Fixed(size) => s.min() == size && s.max() == size
                    && s.current() == size,
                GpuBatchStrategy::Timed { max_size, .. } => s.min() == max_size && s.max()
                    == max_size && s.current() == max_size,
            },
            strategy.well_formed() ==> s.well_formed(),
    {
        match strategy {
            GpuBatchStrategy::Adaptive { min_size, max_size } => AdaptiveSizer {
                min_size: *min_size,
                max_size: *max_size,
                current_size: *min_size,
                last_rate: None,
            },
            GpuBatchStrategy::Fixed(size) => AdaptiveSizer {
                min_size: *size,
                max_size: *size,
                current_size: *size,
                last_rate: None,
            },
            GpuBatchStrategy::Timed { max_size, .. } => AdaptiveSizer {
                min_size: *max_size,
                max_size: *max_size,
                current_size: *max_size,
                last_rate: None,
            },
        }
    }

    /// The current target batch size.
    pub fn current_size(&self) -> (r: usize)
        ensures
            r == self.current(),
    {
        self.current_size
    }

    /// Update the batch size from a throughput observation of `items`
    /// processed in `nanos` nanoseconds.
    pub fn observe(&mut self, items: usize, nanos: u128)
        ensures
            old(self).observed(items as nat, nanos as nat, *final(self)),
    {
        let (improved, degraded) = match self.last_rate {
            Some((li, ld)) => (
                rate_above(items, nanos, li, ld),
                rate_below(items, nanos, li, ld),
            ),
            None => (false, false),
        };
        let cur = self.current_size;
        if improved && cur < self.max_size {
            self.current_size = if cur < self.max_size - cur {
                2 * cur
            } else {
                self.max_size
            };
        } else if degraded && cur > self.min_size {
            self.current_size = if cur / 2 > self.min_size { cur / 2 } else { self.min_size };
        }
        self.last_rate = Some((items, nanos));
    }

    /// Update the batch size from the number of items processed and the
    /// time the batch took.
    pub fn update(&mut self, items_processed: usize, duration: Duration)
        ensures
            old(self).observed(
                items_processed as nat,
                nanos_of(duration) as nat,
                *final(self),
            ),
    {
        let nanos = duration_nanos(&duration);
        self.observe(items_processed, nanos);
    }
}

/// Two to the 64th.
pub open spec fn b64() -> nat {
    18446744073709551616nat
}

/// Two to the 128th.
pub open spec fn b128() -> nat {
    340282366920938463463374607431768211456nat
}

/// The product of two numbers written in base `b` with two digits each.
proof fn lemma_expand_product(x1: int, x0: int, y1: int, y0: int, b: int)
    ensures
        (x1 * b + x0) * (y1 * b + y0) == (x1 * y1) * (b * b) + ((x0 * y1) + (x1 * y0)) * b + x0
            * y0,
{
    let xb = x1 * b;
    let yb = y1 * b;
    assert((xb + x0) * (yb + y0) == xb * yb + xb * y0 + x0 * yb + x0 * y0) by (nonlinear_arith);
    assert(xb * yb == (x1 * y1) * (b * b)) by (nonlinear_arith)
        requires xb == x1 * b, yb == y1 * b;
    assert(xb * y0 + x0 * yb == ((x0 * y1) + (x1 * y0)) * b) by (nonlinear_arith)
        requires xb == x1 * b, yb == y1 * b;
}

/// The exact product of two 128-bit numbers, as a (high, low) pair of
/// 128-bit halves.
fn wide_mul(a: u128, b: u128) -> (r: (u128, u128))
    ensures
        r.0 * b128() + r.1 == a * b,
        r.1 < b128(),
{
    let m: u128 = 0x1_0000_0000_0000_0000;
    let a1 = a / m;
    let a0 = a % m;
    let b1 = b / m;
    let b0 = b % m;
    let ghost bb: int = b64() as int;
    let ghost (ai, bi, a1i, a0i, b1i, b0i) = (
        a as int,
        b as int,
        a1 as int,
        a0 as int,
        b1 as int,
        b0 as int,
    );
    proof {
        assert(18446744073709551616int * 18446744073709551616int
            == 340282366920938463463374607431768211456int) by (nonlinear_arith);
        assert(ai == a1i * bb + a0i && 0 <= a0i < bb) by (nonlinear_arith)
            requires a1i == ai / bb, a0i == ai % bb, bb > 0;
        assert(bi == b1i * bb + b0i && 0 <= b0i < bb) by (nonlinear_arith)
            requires b1i == bi / bb, b0i == bi % bb, bb > 0;
        assert(a1i < bb && b1i < bb) by (nonlinear_arith)
            requires ai == a1i * bb + a0i, bi == b1i * bb + b0i, 0 <= a0i, 0 <= b0i, ai < bb * bb,
                bi < bb * bb, bb > 0, a1i >= 0, b1i >= 0;
        assert(a0i * b0i < bb * bb && a0i * b1i < bb * bb && a1i * b0i < bb * bb && a1i * b1i
            < bb * bb) by (nonlinear_arith)
            requires 0 <= a0i < bb, 0 <= a1i < bb, 0 <= b0i < bb, 0 <= b1i < bb;
    }
    let p00 = a0 * b0;
    let p01 = a0 * b1;
    let p10 = a1 * b0;
    let p11 = a1 * b1;
    let q00 = p00 / m;
    let r00 = p00 % m;
    let q01 = p01 / m;
    let r01 = p01 % m;
    let q10 = p10 / m;
    let r10 = p10 % m;
    let mid = q00 + r01 + r10;
    let qm = mid / m;
    let rm = mid % m;
    let ghost (p00i, p01i, p10i, p11i) = (p00 as int, p01 as int, p10 as int, p11 as int);
    let ghost (q00i, r00i, q01i, r01i, q10i, r10i) = (
        q00 as int,
        r00 as int,
        q01 as int,
        r01 as int,
        q10 as int,
        r10 as int,
    );
    let ghost (midi, qmi, rmi) = (mid as int, qm as int, rm as int);
    proof {
        assert(p00i == q00i * bb + r00i && 0 <= r00i < bb) by (nonlinear_arith)
            requires q00i == p00i / bb, r00i == p00i % bb, bb > 0;
        assert(p01i == q01i * bb + r01i && 0 <= r01i < bb) by (nonlinear_arith)
            requires q01i == p01i / bb, r01i == p01i % bb, bb > 0;
        assert(p10i == q10i * bb + r10i && 0 <= r10i < bb) by (nonlinear_arith)
            requires q10i == p10i / bb, r10i == p10i % bb, bb > 0;
        assert(midi == qmi * bb + rmi && 0 <= rmi < bb) by (nonlinear_arith)
            requires qmi == midi / bb, rmi == midi % bb, bb > 0;
        let bb2 = bb * bb;
        lemma_expand_product(a1i, a0i, b1i, b0i, bb);
        assert(ai * bi == p11i * bb2 + (p01i + p10i) * bb + p00i);
        assert((p01i + p10i) * bb == (q01i + q10i) * bb2 + (r01i + r10i) * bb)
            by (nonlinear_arith)
            requires p01i == q01i * bb + r01i, p10i == q10i * bb + r10i, bb2 == bb * bb;
        assert(p00i == q00i * bb + r00i);
        assert((r01i + r10i) * bb + q00i * bb == midi * bb) by (nonlinear_arith)
            requires midi == q00i + r01i + r10i;
        assert(midi * bb == qmi * bb2 + rmi * bb) by (nonlinear_arith)
            requires midi == qmi * bb + rmi, bb2 == bb * bb;
        assert(p11i * bb2 + (q01i + q10i) * bb2 + qmi * bb2 == (p11i + q01i + q10i + qmi) * bb2)
            by (nonlinear_arith);
        assert(ai * bi == (p11i + q01i + q10i + qmi) * (bb * bb) + (rmi * bb + r00i));
        assert(rmi * bb + r00i < bb * bb) by (nonlinear_arith)
            requires 0 <= rmi < bb, 0 <= r00i < bb;
        assert(ai * bi < (bb * bb) * (bb * bb)) by (nonlinear_arith)
            requires 0 <= ai < bb * bb, 0 <= bi < bb * bb;
        assert(p11i + q01i + q10i + qmi < bb * bb) by (nonlinear_arith)
            requires ai * bi == (p11i + q01i + q10i + qmi) * (bb * bb) + (rmi * bb + r00i),
                ai * bi < (bb * bb) * (bb * bb), rmi * bb + r00i >= 0, bb > 0, p11i >= 0,
                q01i >= 0, q10i >= 0, qmi >= 0;
    }
    let hi = p11 + q01 + q10 + qm;
    let lo = rm * m + r00;
    (hi, lo)
}

/// Whether the first of two (high, low) pairs stands for the larger
/// number.
fn wide_gt(x: (u128, u128), y: (u128, u128)) -> (r: bool)
    requires
        x.1 < b128(),
        y.1 < b128(),
    ensures
        r == (x.0 * b128() + x.1 > y.0 * b128() + y.1),
{
    proof {
        assert(x.0 > y.0 ==> x.0 * b128() + x.1 > y.0 * b128() + y.1) by (nonlinear_arith)
            requires x.1 < b128(), y.1 < b128(), x.1 >= 0, y.1 >= 0;
        assert(x.0 < y.0 ==> x.0 * b128() + x.1 < y.0 * b128() + y.1) by (nonlinear_arith)
            requires x.1 < b128(), y.1 < b128(), x.1 >= 0, y.1 >= 0;
    }
    x.0 > y.0 || (x.0 == y.0 && x.1 > y.1)
}

/// Executable form of [`rate_improved`].
fn rate_above(ia: usize, da: u128, ib: usize, db: u128) -> (r: bool)
    ensures
        r == rate_improved(ia as nat, da as nat, ib as nat, db as nat),
{
    if da == 0 {
        ia > 0 && db > 0
    } else if db == 0 {
        false
    } else {
        let x = wide_mul(20 * (ia as u128), db);
        let y = wide_mul(21 * (ib as u128), da);
        proof {
            assert(20 * (ia as int) * db == 20 * (ia * db)) by (nonlinear_arith);
            assert(21 * (ib as int) * da == 21 * (ib * da)) by (nonlinear_arith);
        }
        wide_gt(x, y)
    }
}

/// Executable form of [`rate_degraded`].
fn rate_below(ia: usize, da: u128, ib: usize, db: u128) -> (r: bool)
    ensures
        r == rate_degraded(ia as nat, da as nat, ib as nat, db as nat),
{
    if da == 0 {
        false
    } else if db == 0 {
        ib > 0
    } else {
        let x = wide_mul(5 * (ia as u128), db);
        let y = wide_mul(4 * (ib as u128), da);
        proof {
            assert(5 * (ia as int) * db == 5 * (ia * db)) by (nonlinear_arith);
            assert(4 * (ib as int) * da == 4 * (ib * da)) by (nonlinear_arith);
        }
        wide_gt(y, x)
    }
}

/// A sizer keeps its batch size between its bounds whatever it observes.
pub proof fn lemma_observation_keeps_bounds(s: AdaptiveSizer, items: nat, nanos: nat, r: AdaptiveSizer)
    requires
        s.well_formed(),
        s.observed(items, nanos, r),
    ensures
        r.well_formed(),
{
}

/// A well-formed strategy never starts above its own maximum.
pub proof fn lemma_target_within_max(s: GpuBatchStrategy)
    requires
        s.well_formed(),
    ensures
        0 < s.target_batch() <= s.max_batch(),
{
}

/// Every observation becomes the sizer's reference, whatever the size
/// decision was, and the bounds never move.
pub proof fn lemma_observation_becomes_reference(
    s: AdaptiveSizer,
    items: nat,
    nanos: nat,
    r: AdaptiveSizer,
)
    requires
        s.observed(items, nanos, r),
    ensures
        r.last_rate() == Some((items, nanos)),
        r.min() == s.min(),
        r.max() == s.max(),
        s.last_rate() is None ==> r.current() == s.current(),
{
}

/// Each batch is compared with the batch just before it: after observing
/// `i1` items in `n1` nanoseconds and then `i2` items in `n2`, the size
/// doubles (up to the maximum) when the second throughput `i2 / n2` is
/// more than 5% above the first `i1 / n1`, halves (down to the minimum)
/// when it is below 80% of it, and stays otherwise.
pub proof fn lemma_consecutive_observations(
    s: AdaptiveSizer,
    i1: nat,
    n1: nat,
    r1: AdaptiveSizer,
    i2: nat,
    n2: nat,
    r2: AdaptiveSizer,
)
    requires
        s.observed(i1, n1, r1),
        r1.observed(i2, n2, r2),
        n1 > 0,
        n2 > 0,
    ensures
        ({
            let c = r1.current();
            let lo = s.min();
            let hi = s.max();
            r2.current() == if 20 * (i2 * n1) > 21 * (i1 * n2) && c < hi {
                if 2 * c < hi {
                    2 * c
                } else {
                    hi
                }
            } else if 5 * (i2 * n1) < 4 * (i1 * n2) && c > lo {
                if c / 2 > lo {
                    c / 2
                } else {
                    lo
                }
            } else {
                c
            }
        }),
        r2.last_rate() == Some((i2, n2)),
{
    assert(i2 * n1 == n1 * i2) by (nonlinear_arith);
    assert(i1 * n2 == n2 * i1) by (nonlinear_arith);
}

} // verus!
