//! The decisions of the GPU map operator.
//!
//! Items from upstream are handed to the kernel's buffer and their
//! timestamps kept here; when the batching strategy says so the kernel is
//! flushed, and its outputs are paired with the timestamps of the inputs
//! they belong to and queued; queued outputs are emitted one at a time,
//! then the pending watermark, then the end marker.
//!
//! Kernels may pipeline: a flush may return the outputs of the *previous*
//! batch, and the last batch's outputs are collected by a final drain.
//! The driver around this state machine performs the actions it asks for
//! (pulling from upstream, pushing to the kernel, flushing and draining
//! the kernel) and hands back what they produced.
use std::collections::VecDeque;
use std::time::{Duration, Instant};

use vstd::prelude::*;

use super::batch_strategy::{elapsed_between, nanos_of, AdaptiveSizer, BatchTimer, GpuBatchStrategy};
use crate::operator::{StreamElement, Timestamp};

verus! {

/// Capacity reserved for timestamps when the operator is created.
pub const INITIAL_TIMESTAMP_CAPACITY: usize = 1024;

/// Largest buffer capacity reserved at setup.
pub const MAX_INITIAL_CAPACITY: usize = 50_000_000;

/// What the driver of a [`MapGpu`] does next.
#[derive(Debug, PartialEq)]
pub enum MapAction<I, O> {
    /// Pull the next element from upstream and hand it to
    /// [`MapGpu::on_element`] with the kernel's buffer length.
    Pull,
    /// Push this item into the kernel's buffer, then call
    /// [`MapGpu::on_pushed`] with the kernel's buffer length.
    Push(I),
    /// Flush the kernel, timing it, and hand its outputs and the time it
    /// took to [`MapGpu::on_flushed`].
    Flush,
    /// Drain the kernel's pipelined outputs and hand them to
    /// [`MapGpu::on_drained`].
    Drain,
    /// Return this element downstream.
    Emit(StreamElement<O>),
}

/// How far the handling of the end of an iteration or stream has got.
#[derive(Clone, Copy, Debug, PartialEq, Eq, Structural)]
pub enum MapPhase {
    /// Processing items.
    Running,
    /// Flushing and draining before ending the iteration.
    Restarting,
    /// Flushing and draining before ending the stream.
    Terminating,
}

/// The abstract state of a [`MapGpu`].
#[verifier::ext_equal]
pub struct MapView<O> {
    /// The batching strategy.
    pub strategy: GpuBatchStrategy,
    /// Timestamps of the items in the kernel's buffer, in order.
    pub buffered: Seq<Option<Timestamp>>,
    /// Outputs waiting to be emitted, with their timestamps, in order.
    pub queue: Seq<(O, Option<Timestamp>)>,
    /// Whether a timer decides flushes too (timed strategy).
    pub timed: bool,
    /// The timer's flush interval, when there is a timer.
    pub timer_interval: Option<Duration>,
    /// The instant the timer counts from, when there is a timer.
    pub timer_started: Option<Instant>,
    /// The batch sizer (adaptive strategy).
    pub sizer: Option<AdaptiveSizer>,
    /// Largest watermark seen since the last end of iteration.
    pub max_watermark: Option<Timestamp>,
    /// Watermark to emit once the queue is empty.
    pub pending_watermark: Option<Timestamp>,
    /// Upstream has ended the stream.
    pub received_end: bool,
    /// Upstream has ended the iteration.
    pub received_flush_restart: bool,
    /// Timestamps of a batch whose outputs the kernel has not returned yet.
    pub pending: Seq<Option<Timestamp>>,
    /// Progress of the end handling.
    pub phase: MapPhase,
}

/// Outputs paired, in order, with timestamps.
pub open spec fn paired<O>(outputs: Seq<O>, ts: Seq<Option<Timestamp>>) -> Seq<(O, Option<Timestamp>)> {
    Seq::new(outputs.len(), |i: int| (outputs[i], ts[i]))
}

/// The larger of an optional timestamp and a new one.
pub open spec fn max_watermark_with(cur: Option<Timestamp>, ts: Timestamp) -> Option<Timestamp> {
    match cur {
        Some(c) => Some(if ts > c { ts } else { c }),
        None => Some(ts),
    }
}

/// A timer's start after a flush at `now`: restarted from `now`, when
/// there is a timer.
pub open spec fn restarted(started: Option<Instant>, now: Instant) -> Option<Instant> {
    match started {
        Some(_) => Some(now),
        None => None,
    }
}

/// The element that carries a queued output downstream.
pub open spec fn output_element<O>(entry: (O, Option<Timestamp>)) -> StreamElement<O> {
    match entry.1 {
        Some(ts) => StreamElement::Timestamped(entry.0, ts),
        None => StreamElement::Item(entry.0),
    }
}

impl<O> MapView<O> {
    /// The batch size at which a flush is due: the sizer's current size
    /// for the adaptive strategy, the strategy's target otherwise.
    pub open spec fn flush_target(self) -> nat {
        match self.sizer {
            Some(s) => s.current(),
            None => self.strategy.target_batch() as nat,
        }
    }

    /// Whether a flush is due with `kernel_len` items in the kernel, given
    /// whether the timer says its interval has passed: never with an empty
    /// kernel, always at the flush target, and before it only when the
    /// timed strategy's timer is due.
    pub open spec fn flush_decision(self, kernel_len: nat, timer_due: bool) -> bool {
        kernel_len > 0 && (kernel_len >= self.flush_target() || (self.timed && timer_due))
    }

    /// What the timer answers: whether its interval has passed from its
    /// start to the clock's reading, whichever that is.
    pub open spec fn timer_answer_ok(self, timer_due: bool) -> bool {
        self.timer_interval is Some && self.timer_started is Some ==> exists|now: Instant|
            timer_due == (nanos_of(
                #[trigger] elapsed_between(self.timer_started->Some_0, now),
            ) >= nanos_of(self.timer_interval->Some_0))
    }

    /// The state after looking for something to emit.
    pub open spec fn poll_state(self) -> Self {
        if self.queue.len() > 0 {
            MapView { queue: self.queue.drop_first(), ..self }
        } else if self.pending_watermark is Some {
            MapView { pending_watermark: None, ..self }
        } else if self.received_flush_restart {
            MapView { received_flush_restart: false, ..self }
        } else {
            self
        }
    }

    /// What is done after looking for something to emit: the oldest queued
    /// output first, then the pending watermark, then the end markers;
    /// otherwise pull from upstream.
    pub open spec fn poll_action<I>(self) -> MapAction<I, O> {
        if self.queue.len() > 0 {
            MapAction::Emit(output_element(self.queue[0]))
        } else if self.pending_watermark is Some {
            MapAction::Emit(StreamElement::Watermark(self.pending_watermark->Some_0))
        } else if self.received_flush_restart {
            MapAction::Emit(StreamElement::FlushAndRestart)
        } else if self.received_end {
            MapAction::Emit(StreamElement::Terminate)
        } else {
            MapAction::Pull
        }
    }

    /// The end of the iteration or stream, once flushed and drained: the
    /// largest watermark becomes pending and the end is recorded.
    pub open spec fn ended(self) -> Self {
        let wm = if self.max_watermark is Some {
            self.max_watermark
        } else {
            self.pending_watermark
        };
        let base = MapView {
            pending_watermark: wm,
            max_watermark: None,
            phase: MapPhase::Running,
            ..self
        };
        if self.phase == MapPhase::Restarting {
            MapView { received_flush_restart: true, ..base }
        } else {
            MapView { received_end: true, ..base }
        }
    }

    /// The state after a flush has been dealt with: look for something to
    /// emit while running; at an end, drain pending outputs first.
    pub open spec fn after_flush_state(self) -> Self {
        if self.phase == MapPhase::Running {
            self.poll_state()
        } else if self.pending.len() > 0 {
            self
        } else {
            self.ended().poll_state()
        }
    }

    /// The action after a flush has been dealt with.
    pub open spec fn after_flush_action<I>(self) -> MapAction<I, O> {
        if self.phase == MapPhase::Running {
            self.poll_action()
        } else if self.pending.len() > 0 {
            MapAction::Drain
        } else {
            self.ended().poll_action()
        }
    }

    /// Whether a flush has anything to do: items in the kernel's buffer or
    /// outputs still owed by a pipelined kernel.
    pub open spec fn flush_needed(self, kernel_len: nat) -> bool {
        kernel_len > 0 || self.pending.len() > 0
    }

    /// The state after asking for a flush, or skipping it.
    pub open spec fn flush_step_state(self, kernel_len: nat) -> Self {
        if self.flush_needed(kernel_len) {
            self
        } else {
            self.after_flush_state()
        }
    }

    /// The action when a flush is asked for: flush, or carry on when there
    /// is nothing to flush.
    pub open spec fn flush_step_action<I>(self, kernel_len: nat) -> MapAction<I, O> {
        if self.flush_needed(kernel_len) {
            MapAction::Flush
        } else {
            self.after_flush_action()
        }
    }

    /// The state once an element from upstream has been taken in and the
    /// next action chosen.
    pub open spec fn element_state<I>(self, e: StreamElement<I>, kernel_len: nat) -> Self {
        match e {
            StreamElement::Item(_) => MapView { buffered: self.buffered.push(None), ..self },
            StreamElement::Timestamped(_, ts) => MapView {
                buffered: self.buffered.push(Some(ts)),
                ..self
            },
            StreamElement::Watermark(ts) => MapView {
                max_watermark: max_watermark_with(self.max_watermark, ts),
                ..self
            }.poll_state(),
            StreamElement::FlushBatch => self.flush_step_state(kernel_len),
            StreamElement::FlushAndRestart => MapView {
                phase: MapPhase::Restarting,
                ..self
            }.flush_step_state(kernel_len),
            StreamElement::Terminate => MapView {
                phase: MapPhase::Terminating,
                ..self
            }.flush_step_state(kernel_len),
        }
    }

    /// The action chosen for an element from upstream: data items go to
    /// the kernel, watermarks are recorded, flush and end markers flush.
    pub open spec fn element_action<I>(self, e: StreamElement<I>, kernel_len: nat) -> MapAction<
        I,
        O,
    > {
        match e {
            StreamElement::Item(x) => MapAction::Push(x),
            StreamElement::Timestamped(x, _) => MapAction::Push(x),
            StreamElement::Watermark(ts) => MapView {
                max_watermark: max_watermark_with(self.max_watermark, ts),
                ..self
            }.poll_action(),
            StreamElement::FlushBatch => self.flush_step_action(kernel_len),
            StreamElement::FlushAndRestart => MapView {
                phase: MapPhase::Restarting,
                ..self
            }.flush_step_action(kernel_len),
            StreamElement::Terminate => MapView {
                phase: MapPhase::Terminating,
                ..self
            }.flush_step_action(kernel_len),
        }
    }

    /// Whether the outputs of a flush can be matched with timestamps: none
    /// yet, one per pending timestamp (pipelined kernel), or one per item
    /// just flushed. Any other count is a kernel error on which the
    /// operator stops.
    pub open spec fn flush_outputs_ok(self, count: nat) -> bool {
        let c = self.buffered.len();
        let p = self.pending.len();
        count == 0 || (p > 0 && count == p) || (c > 0 && count == c)
    }

    /// The state once a flush's outputs are queued: outputs matching the
    /// pending batch are from it (pipelined kernel) and the batch just
    /// flushed becomes pending; outputs matching the flushed batch are
    /// from it; no outputs from a non-empty batch means it is pending.
    pub open spec fn with_outputs(self, outputs: Seq<O>) -> Self {
        let c = self.buffered;
        let p = self.pending;
        let base = MapView { buffered: Seq::empty(), ..self };
        if outputs.len() == p.len() && p.len() > 0 {
            MapView { queue: self.queue + paired(outputs, p), pending: c, ..base }
        } else if outputs.len() == c.len() && c.len() > 0 {
            MapView { queue: self.queue + paired(outputs, c), ..base }
        } else if outputs.len() == 0 && c.len() > 0 {
            MapView { pending: c, ..base }
        } else {
            base
        }
    }

    /// Whether the outputs of a drain can be matched with the pending
    /// timestamps.
    pub open spec fn drain_outputs_ok(self, count: nat) -> bool {
        count == 0 || count == self.pending.len()
    }

    /// The state once drained outputs are queued with the pending
    /// timestamps (nothing changes when the drain returned nothing).
    pub open spec fn with_drained(self, outputs: Seq<O>) -> Self {
        if outputs.len() == 0 {
            self
        } else {
            MapView {
                queue: self.queue + paired(outputs, self.pending),
                pending: Seq::empty(),
                ..self
            }
        }
    }

    /// Whether `a` is an action that the operator can be asked to follow up
    /// in this state: pulling, pushing and emitting happen while running,
    /// draining only while ending.
    pub open spec fn fits<I>(self, a: MapAction<I, O>) -> bool {
        match a {
            MapAction::Drain => self.phase != MapPhase::Running,
            MapAction::Flush => true,
            _ => self.phase == MapPhase::Running,
        }
    }

    /// Timestamps of everything between upstream and downstream, in the
    /// order in which they will leave: queued, pending, then buffered.
    pub open spec fn in_flight(self) -> Seq<Option<Timestamp>> {
        self.queue.map_values(|e: (O, Option<Timestamp>)| e.1) + self.pending + self.buffered
    }
}

/// The decisions of the GPU map operator (see the module documentation).
#[derive(Debug, Clone)]
pub struct MapGpu<O> {
    strategy: GpuBatchStrategy,
    buffer_timestamps: Vec<Option<Timestamp>>,
    output_queue: VecDeque<(O, Option<Timestamp>)>,
    batch_timer: Option<BatchTimer>,
    adaptive_sizer: Option<AdaptiveSizer>,
    max_watermark: Option<Timestamp>,
    pending_watermark: Option<Timestamp>,
    received_end: bool,
    received_flush_restart: bool,
    pending_timestamps: Vec<Option<Timestamp>>,
    phase: MapPhase,
}

impl<O> View for MapGpu<O> {
    type V = MapView<O>;

    closed spec fn view(&self) -> MapView<O> {
        MapView {
            strategy: self.strategy,
            buffered: self.buffer_timestamps@,
            queue: self.output_queue@,
            timed: self.batch_timer is Some,
            timer_interval: match self.batch_timer {
                Some(t) => t.interval(),
                None => None,
            },
            timer_started: match self.batch_timer {
                Some(t) => Some(t.started()),
                None => None,
            },
            sizer: self.adaptive_sizer,
            max_watermark: self.max_watermark,
            pending_watermark: self.pending_watermark,
            received_end: self.received_end,
            received_flush_restart: self.received_flush_restart,
            pending: self.pending_timestamps@,
            phase: self.phase,
        }
    }
}

/// The larger of an optional timestamp and a new one.
fn watermark_max(cur: Option<Timestamp>, ts: Timestamp) -> (r: Option<Timestamp>)
    ensures
        r == max_watermark_with(cur, ts),
{
    match cur {
        Some(c) => Some(if ts > c { ts } else { c }),
        None => Some(ts),
    }
}

impl<O: Copy> MapGpu<O> {
    /// A map operator with the default strategy (fixed batches of ten
    /// million items).
    pub fn new() -> (m: Self)
        ensures
            m@.strategy == GpuBatchStrategy::Fixed(super::batch_strategy::DEFAULT_FIXED_BATCH),
            m@.buffered.len() == 0,
            m@.queue.len() == 0,
            m@.pending.len() == 0,
            !m@.timed,
            m@.timer_interval is None,
            m@.timer_started is None,
            m@.sizer is None,
            m@.max_watermark is None,
            m@.pending_watermark is None,
            !m@.received_end,
            !m@.received_flush_restart,
            m@.phase == MapPhase::Running,
    {
        Self::with_strategy(GpuBatchStrategy::default())
    }

    /// A map operator with the given strategy: the timed strategy gets a
    /// timer, the adaptive one a batch sizer.
    pub fn with_strategy(strategy: GpuBatchStrategy) -> (m: Self)
        ensures
            m@.strategy == strategy,
            m@.buffered.len() == 0,
            m@.queue.len() == 0,
            m@.pending.len() == 0,
            m@.timed == (strategy is Timed),
            m@.timer_interval == (match strategy {
                GpuBatchStrategy::Timed { interval, .. } => Some(interval),
                _ => None,
            }),
            m@.timer_started is Some <==> strategy is Timed,
            (strategy is Adaptive) ==> (m@.sizer matches Some(s) && s.current() == s.min()
                && s.min() == strategy->min_size && s.max() == strategy->Adaptive_max_size
                && s.last_rate() is None),
            !(strategy is Adaptive) ==> m@.sizer is None,
            m@.max_watermark is None,
            m@.pending_watermark is None,
            !m@.received_end,
            !m@.received_flush_restart,
            m@.phase == MapPhase::Running,
    {
        let batch_timer = match &strategy {
            GpuBatchStrategy::Timed { .. } => Some(BatchTimer::new(&strategy)),
            _ => None,
        };
        let adaptive_sizer = match &strategy {
            GpuBatchStrategy::Adaptive { .. } => Some(AdaptiveSizer::new(&strategy)),
            _ => None,
        };
        MapGpu {
            strategy,
            buffer_timestamps: Vec::with_capacity(INITIAL_TIMESTAMP_CAPACITY),
            output_queue: VecDeque::new(),
            batch_timer,
            adaptive_sizer,
            max_watermark: None,
            pending_watermark: None,
            received_end: false,
            received_flush_restart: false,
            pending_timestamps: Vec::new(),
            phase: MapPhase::Running,
        }
    }

    /// Number of timestamps waiting for a pipelined kernel's outputs.
    pub fn pending_count(&self) -> (n: usize)
        ensures
            n == self@.pending.len(),
    {
        self.pending_timestamps.len()
    }

    /// Number of items buffered since the last flush.
    pub fn buffered_count(&self) -> (n: usize)
        ensures
            n == self@.buffered.len(),
    {
        self.buffer_timestamps.len()
    }

    /// Progress of the end handling.
    pub fn phase(&self) -> (p: MapPhase)
        ensures
            p == self@.phase,
    {
        self.phase
    }

    /// The batching strategy.
    pub fn strategy(&self) -> (s: GpuBatchStrategy)
        ensures
            s == self@.strategy,
    {
        self.strategy
    }

    /// Capacity to reserve for buffers at setup: the strategy's target,
    /// capped at fifty million.
    pub fn initial_capacity(&self) -> (c: usize)
        ensures
            c == (if self@.strategy.target_batch() < MAX_INITIAL_CAPACITY {
                self@.strategy.target_batch()
            } else {
                MAX_INITIAL_CAPACITY
            }),
    {
        let target = self.strategy.target_size();
        if target < MAX_INITIAL_CAPACITY {
            target
        } else {
            MAX_INITIAL_CAPACITY
        }
    }

    /// Prepares the buffers before processing starts: fresh, empty ones
    /// with the initial capacity.
    pub fn setup(&mut self)
        ensures
            final(self)@ == (MapView {
                buffered: Seq::empty(),
                queue: Seq::empty(),
                ..old(self)@
            }),
    {
        let capacity = self.initial_capacity();
        self.buffer_timestamps = Vec::with_capacity(capacity);
        self.output_queue = VecDeque::with_capacity(capacity);
    }

    /// Looks for something to emit: the oldest queued output, the pending
    /// watermark, an end marker, or else asks for the next element.
    pub fn poll<I>(&mut self) -> (a: MapAction<I, O>)
        ensures
            final(self)@ == old(self)@.poll_state(),
            a == old(self)@.poll_action::<I>(),
    {
        match self.output_queue.pop_front() {
            Some((output, ts)) => {
                return match ts {
                    Some(timestamp) => MapAction::Emit(StreamElement::Timestamped(output, timestamp)),
                    None => MapAction::Emit(StreamElement::Item(output)),
                };
            },
            None => {},
        }
        match self.pending_watermark {
            Some(wm) => {
                self.pending_watermark = None;
                return MapAction::Emit(StreamElement::Watermark(wm));
            },
            None => {},
        }
        if self.received_flush_restart {
            self.received_flush_restart = false;
            return MapAction::Emit(StreamElement::FlushAndRestart);
        }
        if self.received_end {
            return MapAction::Emit(StreamElement::Terminate);
        }
        MapAction::Pull
    }

    /// Finishes the end of an iteration or stream: the largest watermark
    /// becomes pending, the end is recorded, and something is emitted.
    fn end_and_poll<I>(&mut self) -> (a: MapAction<I, O>)
        requires
            old(self)@.phase != MapPhase::Running,
        ensures
            final(self)@ == old(self)@.ended().poll_state(),
            a == old(self)@.ended().poll_action::<I>(),
    {
        match self.max_watermark {
            Some(wm) => {
                self.max_watermark = None;
                self.pending_watermark = Some(wm);
            },
            None => {},
        }
        if self.phase == MapPhase::Restarting {
            self.received_flush_restart = true;
        } else {
            self.received_end = true;
        }
        self.phase = MapPhase::Running;
        self.poll()
    }

    /// Carries on after a flush: emit while running; at an end, drain the
    /// pending outputs, or end when there are none.
    fn after_flush<I>(&mut self) -> (a: MapAction<I, O>)
        ensures
            final(self)@ == old(self)@.after_flush_state(),
            a == old(self)@.after_flush_action::<I>(),
    {
        if self.phase == MapPhase::Running {
            self.poll()
        } else if self.pending_timestamps.len() > 0 {
            MapAction::Drain
        } else {
            self.end_and_poll()
        }
    }

    /// Asks for a flush unless there is nothing to flush.
    fn flush_step<I>(&mut self, kernel_len: usize) -> (a: MapAction<I, O>)
        ensures
            final(self)@ == old(self)@.flush_step_state(kernel_len as nat),
            a == old(self)@.flush_step_action::<I>(kernel_len as nat),
    {
        if kernel_len == 0 && self.pending_timestamps.len() == 0 {
            self.after_flush()
        } else {
            MapAction::Flush
        }
    }

    /// Takes in an element from upstream; `kernel_len` is the number of
    /// items in the kernel's buffer.
    pub fn on_element<I>(&mut self, e: StreamElement<I>, kernel_len: usize) -> (a: MapAction<I, O>)
        requires
            old(self)@.phase == MapPhase::Running,
        ensures
            final(self)@ == old(self)@.element_state(e, kernel_len as nat),
            a == old(self)@.element_action(e, kernel_len as nat),
            final(self)@.fits(a),
    {
        match e {
            StreamElement::Item(x) => {
                self.buffer_timestamps.push(None);
                MapAction::Push(x)
            },
            StreamElement::Timestamped(x, ts) => {
                self.buffer_timestamps.push(Some(ts));
                MapAction::Push(x)
            },
            StreamElement::Watermark(ts) => {
                self.max_watermark = watermark_max(self.max_watermark, ts);
                self.poll()
            },
            StreamElement::FlushBatch => self.flush_step(kernel_len),
            StreamElement::FlushAndRestart => {
                self.phase = MapPhase::Restarting;
                self.flush_step(kernel_len)
            },
            StreamElement::Terminate => {
                self.phase = MapPhase::Terminating;
                self.flush_step(kernel_len)
            },
        }
    }

    /// Whether a flush is due with `kernel_len` items in the kernel, given
    /// the timer's answer `timer_due`: never with an empty buffer; always
    /// at the target size; before it only when the timed strategy's timer
    /// is due.
    pub fn flush_due(&self, kernel_len: usize, timer_due: bool) -> (r: bool)
        ensures
            r == self@.flush_decision(kernel_len as nat, timer_due),
    {
        if kernel_len == 0 {
            return false;
        }
        let target = match &self.adaptive_sizer {
            Some(sizer) => sizer.current_size(),
            None => self.strategy.target_size(),
        };
        if kernel_len >= target {
            return true;
        }
        self.batch_timer.is_some() && timer_due
    }

    /// Whether a flush is due with `kernel_len` items in the kernel: the
    /// decision of [`MapGpu::flush_due`], with the timer asked whether its
    /// interval has passed since the last flush.
    pub fn should_flush(&self, kernel_len: usize) -> (r: bool)
        ensures
            exists|due: bool|
                self@.timer_answer_ok(due) && r == self@.flush_decision(kernel_len as nat, due),
            kernel_len == 0 ==> !r,
            kernel_len > 0 && kernel_len >= self@.flush_target() ==> r,
            r && kernel_len < self@.flush_target() ==> self@.timed && kernel_len > 0,
            kernel_len > 0 && self@.timed && (self@.timer_interval matches Some(i) && nanos_of(i)
                == 0) ==> r,
    {
        let timer_due = match &self.batch_timer {
            Some(timer) => {
                let due = timer.should_flush();
                proof {
                    assert(self@.timer_interval == timer.interval());
                    assert(self@.timer_started == Some(timer.started()));
                    if let Some(i) = timer.interval() {
                        let now = choose|now: Instant|
                            due == (nanos_of(#[trigger] elapsed_between(timer.started(), now))
                                >= nanos_of(i));
                        assert(due == (nanos_of(elapsed_between(timer.started(), now)) >= nanos_of(
                            i,
                        )));
                        let v = self@;
                        assert(v.timer_started->Some_0 == timer.started());
                        assert(v.timer_interval->Some_0 == i);
                        assert(due == (nanos_of(elapsed_between(v.timer_started->Some_0, now))
                            >= nanos_of(v.timer_interval->Some_0)));
                        assert(v.timer_answer_ok(due));
                    } else {
                        assert(self@.timer_answer_ok(due));
                    }
                }
                due
            },
            None => false,
        };
        let r = self.flush_due(kernel_len, timer_due);
        assert(self@.timer_answer_ok(timer_due));
        r
    }

    /// After an item went into the kernel's buffer (now `kernel_len`
    /// items): flush when due, otherwise carry on.
    pub fn on_pushed<I>(&mut self, kernel_len: usize) -> (a: MapAction<I, O>)
        requires
            old(self)@.phase == MapPhase::Running,
        ensures
            exists|due: bool|
                old(self)@.timer_answer_ok(due) && (if old(self)@.flush_decision(
                    kernel_len as nat,
                    due,
                ) {
                    a == MapAction::<I, O>::Flush && final(self)@ == old(self)@
                } else {
                    a == old(self)@.poll_action::<I>() && final(self)@ == old(self)@.poll_state()
                }),
            kernel_len == 0 ==> a != MapAction::<I, O>::Flush,
            kernel_len > 0 && kernel_len >= old(self)@.flush_target() ==> a == MapAction::<
                I,
                O,
            >::Flush,
            a == MapAction::<I, O>::Flush && kernel_len < old(self)@.flush_target()
                ==> old(self)@.timed,
            final(self)@.fits(a),
    {
        if self.should_flush(kernel_len) {
            MapAction::Flush
        } else {
            let a = self.poll();
            proof {
                assert(a != MapAction::<I, O>::Flush);
            }
            a
        }
    }

    /// Whether the outputs of a flush can be matched; the driver stops on
    /// any other count, as a kernel error.
    pub fn accepts_flush_outputs(&self, count: usize) -> (r: bool)
        ensures
            r == self@.flush_outputs_ok(count as nat),
    {
        let c = self.buffer_timestamps.len();
        let p = self.pending_timestamps.len();
        count == 0 || (p > 0 && count == p) || (c > 0 && count == c)
    }

    /// Appends outputs, paired in order with timestamps, to the queue.
    fn enqueue_paired(&mut self, outputs: &Vec<O>, ts: &Vec<Option<Timestamp>>)
        requires
            outputs@.len() <= ts@.len(),
        ensures
            final(self)@ == (MapView {
                queue: old(self)@.queue + paired(outputs@, ts@),
                ..old(self)@
            }),
    {
        let mut i: usize = 0;
        while i < outputs.len()
            invariant
                i <= outputs@.len(),
                outputs@.len() <= ts@.len(),
                self@ == (MapView {
                    queue: old(self)@.queue + paired(outputs@, ts@).take(i as int),
                    ..old(self)@
                }),
            decreases outputs@.len() - i,
        {
            self.output_queue.push_back((outputs[i], ts[i]));
            assert(self@.queue =~= old(self)@.queue + paired(outputs@, ts@).take(i + 1));
            assert(old(self)@.queue + paired(outputs@, ts@).take(i + 1) =~= old(self)@.queue
                + paired(outputs@, ts@).take(i as int) + seq![(outputs@[i as int], ts@[i as int])]);
            i = i + 1;
        }
        assert(paired(outputs@, ts@).take(outputs@.len() as int) =~= paired(outputs@, ts@));
    }

    /// Takes the outputs of a flush, the time it took and the instant it
    /// ended: the batch leaves the buffer, the sizer learns the throughput,
    /// the timer restarts from `now`, and the outputs are queued with the
    /// timestamps of their inputs.
    pub fn on_flushed<I>(&mut self, outputs: Vec<O>, elapsed: Duration, now: Instant) -> (a:
        MapAction<I, O>)
        requires
            old(self)@.flush_outputs_ok(outputs@.len()),
        ensures
            final(self)@.timer_started == restarted(old(self)@.timer_started, now),
            ({
                let mid = MapView {
                    sizer: final(self)@.sizer,
                    timer_started: restarted(old(self)@.timer_started, now),
                    ..old(self)@.with_outputs(outputs@)
                };
                &&& final(self)@ == mid.after_flush_state()
                &&& a == mid.after_flush_action::<I>()
            }),
            match old(self)@.sizer {
                Some(s) => (final(self)@.sizer matches Some(s2) && s.observed(
                    old(self)@.buffered.len(),
                    nanos_of(elapsed) as nat,
                    s2,
                )),
                None => final(self)@.sizer is None,
            },
            final(self)@.fits(a),
    {
        let mut current: Vec<Option<Timestamp>> = Vec::new();
        std::mem::swap(&mut current, &mut self.buffer_timestamps);
        let num_items = current.len();
        match self.adaptive_sizer.take() {
            Some(sizer) => {
                let mut s = sizer;
                s.update(num_items, elapsed);
                self.adaptive_sizer = Some(s);
            },
            None => {},
        }
        match &mut self.batch_timer {
            Some(timer) => timer.restart_at(now),
            None => {},
        }
        let ghost sized = self@;
        let o = outputs.len();
        let p = self.pending_timestamps.len();
        if o == p && p > 0 {
            let mut pending: Vec<Option<Timestamp>> = Vec::new();
            std::mem::swap(&mut pending, &mut self.pending_timestamps);
            self.enqueue_paired(&outputs, &pending);
            self.pending_timestamps = current;
        } else if o == current.len() && o > 0 {
            self.enqueue_paired(&outputs, &current);
        } else if o == 0 && current.len() > 0 {
            self.pending_timestamps = current;
        }
        assert(self@ == (MapView {
            sizer: sized.sizer,
            timer_started: restarted(old(self)@.timer_started, now),
            ..old(self)@.with_outputs(outputs@)
        }));
        self.after_flush()
    }

    /// Whether the outputs of a drain can be matched with the pending
    /// timestamps; the driver stops on any other count, as a kernel error.
    pub fn accepts_drained_outputs(&self, count: usize) -> (r: bool)
        ensures
            r == self@.drain_outputs_ok(count as nat),
    {
        count == 0 || count == self.pending_timestamps.len()
    }

    /// Takes the outputs of a drain at the end of an iteration or stream,
    /// queues them with the pending timestamps, and ends.
    pub fn on_drained<I>(&mut self, outputs: Vec<O>) -> (a: MapAction<I, O>)
        requires
            old(self)@.phase != MapPhase::Running,
            old(self)@.drain_outputs_ok(outputs@.len()),
        ensures
            final(self)@ == old(self)@.with_drained(outputs@).ended().poll_state(),
            a == old(self)@.with_drained(outputs@).ended().poll_action::<I>(),
            final(self)@.fits(a),
    {
        if outputs.len() > 0 {
            let mut pending: Vec<Option<Timestamp>> = Vec::new();
            std::mem::swap(&mut pending, &mut self.pending_timestamps);
            self.enqueue_paired(&outputs, &pending);
            assert(self@ == old(self)@.with_drained(outputs@));
        }
        self.end_and_poll()
    }
}

/// A flush whose outputs belong to the batch they should (one output per
/// input of the pending batch, or of the flushed batch when none is
/// pending, or none yet) loses no timestamp and reorders none: what is in
/// flight stays the same sequence.
pub proof fn lemma_flush_preserves_order<O>(v: MapView<O>, outputs: Seq<O>)
    requires
        (outputs.len() == v.pending.len() && v.pending.len() > 0) || (v.pending.len() == 0 && (
        outputs.len() == v.buffered.len() || outputs.len() == 0)),
    ensures
        v.with_outputs(outputs).in_flight() == v.in_flight(),
{
    let w = v.with_outputs(outputs);
    let f = |e: (O, Option<Timestamp>)| e.1;
    if outputs.len() == v.pending.len() && v.pending.len() > 0 {
        assert(paired(outputs, v.pending).map_values(f) =~= v.pending);
        assert((v.queue + paired(outputs, v.pending)).map_values(f) =~= v.queue.map_values(f)
            + v.pending);
    } else if outputs.len() == v.buffered.len() && v.buffered.len() > 0 {
        assert(paired(outputs, v.buffered).map_values(f) =~= v.buffered);
        assert((v.queue + paired(outputs, v.buffered)).map_values(f) =~= v.queue.map_values(f)
            + v.buffered);
    }
    assert(w.in_flight() =~= v.in_flight());
}

/// A data item enters at the back of what is in flight, with its
/// timestamp (none for a plain item), and is handed to the kernel.
pub proof fn lemma_input_enters_in_flight<O, I>(v: MapView<O>, e: StreamElement<I>, kernel_len: nat)
    requires
        e is Item || e is Timestamped,
    ensures
        v.element_state(e, kernel_len).in_flight() == v.in_flight().push(
            match e {
                StreamElement::Timestamped(_, ts) => Some(ts),
                _ => None,
            },
        ),
        v.element_action(e, kernel_len) is Push,
{
    let w = v.element_state(e, kernel_len);
    assert(w.in_flight() =~= v.in_flight().push(
        match e {
            StreamElement::Timestamped(_, ts) => Some(ts),
            _ => None,
        },
    ));
}

/// A watermark never triggers a flush and leaves the buffered items
/// alone; it only raises the largest watermark seen.
pub proof fn lemma_watermark_never_flushes<O, I>(v: MapView<O>, ts: Timestamp, kernel_len: nat)
    ensures
        !(v.element_action(StreamElement::<I>::Watermark(ts), kernel_len) is Flush),
        v.element_state(StreamElement::<I>::Watermark(ts), kernel_len).buffered == v.buffered,
        v.element_state(StreamElement::<I>::Watermark(ts), kernel_len).pending == v.pending,
{
}

/// A drain that returns the pending batch's outputs keeps what is in
/// flight in order.
pub proof fn lemma_drain_preserves_order<O>(v: MapView<O>, outputs: Seq<O>)
    requires
        outputs.len() == v.pending.len(),
    ensures
        v.with_drained(outputs).in_flight() == v.in_flight(),
{
    let f = |e: (O, Option<Timestamp>)| e.1;
    if outputs.len() > 0 {
        assert(paired(outputs, v.pending).map_values(f) =~= v.pending);
        assert((v.queue + paired(outputs, v.pending)).map_values(f) =~= v.queue.map_values(f)
            + v.pending);
    }
    assert(v.with_drained(outputs).in_flight() =~= v.in_flight());
}

/// Emitting takes the oldest output in flight: its timestamp is the first
/// in flight, and the rest stays in order.
pub proof fn lemma_emit_takes_oldest<O, I>(v: MapView<O>)
    requires
        v.queue.len() > 0,
    ensures
        v.poll_action::<I>() == MapAction::<I, O>::Emit(output_element(v.queue[0])),
        v.in_flight() == seq![v.queue[0].1] + v.poll_state().in_flight(),
{
    let f = |e: (O, Option<Timestamp>)| e.1;
    assert(v.queue.map_values(f) =~= seq![v.queue[0].1] + v.queue.drop_first().map_values(f));
    assert(v.in_flight() =~= seq![v.queue[0].1] + v.poll_state().in_flight());
}

/// Every action the operator asks for can be followed up: a driver that
/// performs them meets the `requires` of the next call.
pub proof fn lemma_actions_fit<O, I>(v: MapView<O>, kernel_len: nat)
    ensures
        v.poll_state().phase == v.phase,
        v.phase == MapPhase::Running ==> v.poll_state().fits(v.poll_action::<I>()),
        v.after_flush_state().fits(v.after_flush_action::<I>()),
{
}

/// Once the stream has ended and everything has been emitted, the
/// operator answers every request with the end marker and stays as it is.
pub proof fn lemma_map_terminated_stays_terminated<O, I>(v: MapView<O>)
    requires
        v.received_end,
        v.queue.len() == 0,
        v.pending_watermark is None,
        !v.received_flush_restart,
    ensures
        v.poll_state() == v,
        v.poll_action::<I>() == MapAction::<I, O>::Emit(StreamElement::Terminate),
{
}

/// At the end of the stream, with a kernel that returns one output per
/// input of the batch just flushed, nothing stays behind: the batch is
/// queued, nothing is pending, the end is recorded and the largest
/// watermark is scheduled after the outputs.
pub proof fn lemma_end_flushes_everything<O, I>(v: MapView<O>, outputs: Seq<O>)
    requires
        v.phase == MapPhase::Terminating,
        v.pending.len() == 0,
        outputs.len() == v.buffered.len(),
    ensures
        ({
            let w = v.with_outputs(outputs);
            &&& w.buffered.len() == 0
            &&& w.pending.len() == 0
            &&& w.queue == v.queue + paired(outputs, v.buffered)
            &&& w.after_flush_state() == w.ended().poll_state()
            &&& w.ended().received_end
            &&& w.ended().pending_watermark == (if v.max_watermark is Some {
                v.max_watermark
            } else {
                v.pending_watermark
            })
        }),
{
    let w = v.with_outputs(outputs);
    if outputs.len() == 0 {
        assert(v.queue + paired(outputs, v.buffered) =~= v.queue);
    }
}

/// Nothing but queued outputs goes out before the watermark and the end
/// marker: while the queue holds outputs, the operator emits the oldest.
pub proof fn lemma_outputs_before_markers<O, I>(v: MapView<O>)
    requires
        v.queue.len() > 0,
    ensures
        v.poll_action::<I>() is Emit,
        v.poll_action::<I>()->Emit_0 is Item || v.poll_action::<I>()->Emit_0 is Timestamped,
{
}

/// One thing that happens to a [`MapGpu`], as its driver sees it: each
/// variant stands for a call of the operator and what the driver handed it.
pub enum MapEvent<I, O> {
    /// [`MapGpu::on_element`] with an element from upstream and the
    /// kernel's buffer length.
    Element(StreamElement<I>, nat),
    /// [`MapGpu::on_pushed`], which decided to flush or not.
    Pushed(bool),
    /// [`MapGpu::on_flushed`] with the flush's outputs and the instant it
    /// ended; the batch sizer becomes the given one.
    Flushed(Seq<O>, Option<AdaptiveSizer>, Instant),
    /// [`MapGpu::on_drained`] with the drain's outputs.
    Drained(Seq<O>),
    /// [`MapGpu::poll`].
    Poll,
}

/// Timestamp of a data element taken in (none for a plain item); nothing
/// for other events.
pub open spec fn input_ts<I, O>(ev: MapEvent<I, O>) -> Seq<Option<Timestamp>> {
    match ev {
        MapEvent::Element(StreamElement::Item(_), _) => seq![None],
        MapEvent::Element(StreamElement::Timestamped(_, ts), _) => seq![Some(ts)],
        _ => seq![],
    }
}

/// Outputs a kernel handed to the operator in an event.
pub open spec fn delivered<I, O>(ev: MapEvent<I, O>) -> Seq<O> {
    match ev {
        MapEvent::Flushed(outs, _, _) => outs,
        MapEvent::Drained(outs) => outs,
        _ => seq![],
    }
}

/// Timestamp of a data element emitted downstream (none for a plain item);
/// nothing for other actions.
pub open spec fn emitted_ts<I, O>(a: MapAction<I, O>) -> Seq<Option<Timestamp>> {
    match a {
        MapAction::Emit(StreamElement::Item(_)) => seq![None],
        MapAction::Emit(StreamElement::Timestamped(_, ts)) => seq![Some(ts)],
        _ => seq![],
    }
}

/// Value of a data element emitted downstream.
pub open spec fn emitted_value<I, O>(a: MapAction<I, O>) -> Seq<O> {
    match a {
        MapAction::Emit(StreamElement::Item(o)) => seq![o],
        MapAction::Emit(StreamElement::Timestamped(o, _)) => seq![o],
        _ => seq![],
    }
}

impl<O> MapView<O> {
    /// The values of the queued outputs, in order.
    pub open spec fn queue_values(self) -> Seq<O> {
        self.queue.map_values(|e: (O, Option<Timestamp>)| e.0)
    }

    /// The state and action after an event, as the contracts of the
    /// operator's methods give them.
    pub open spec fn step<I>(self, ev: MapEvent<I, O>) -> (Self, MapAction<I, O>) {
        match ev {
            MapEvent::Element(e, kernel_len) => (
                self.element_state(e, kernel_len),
                self.element_action(e, kernel_len),
            ),
            MapEvent::Pushed(flush) => if flush {
                (self, MapAction::Flush)
            } else {
                (self.poll_state(), self.poll_action())
            },
            MapEvent::Flushed(outs, sizer, now) => {
                let mid = MapView {
                    sizer,
                    timer_started: restarted(self.timer_started, now),
                    ..self.with_outputs(outs)
                };
                (mid.after_flush_state(), mid.after_flush_action())
            },
            MapEvent::Drained(outs) => (
                self.with_drained(outs).ended().poll_state(),
                self.with_drained(outs).ended().poll_action(),
            ),
            MapEvent::Poll => (self.poll_state(), self.poll_action()),
        }
    }

    /// The kernel keeps its contract in this event: a flush returns the
    /// outputs of the pending batch, or (nothing pending) those of the
    /// batch just flushed or none yet; a drain returns those of the pending
    /// batch.
    pub open spec fn kernel_keeps_contract<I>(self, ev: MapEvent<I, O>) -> bool {
        match ev {
            MapEvent::Flushed(outs, _, _) => (outs.len() == self.pending.len() && self.pending.len()
                > 0) || (self.pending.len() == 0 && (outs.len() == self.buffered.len()
                || outs.len() == 0)),
            MapEvent::Drained(outs) => outs.len() == self.pending.len(),
            _ => true,
        }
    }
}

/// The state and the actions after a sequence of events.
pub open spec fn run<I, O>(v: MapView<O>, evs: Seq<MapEvent<I, O>>) -> (
    MapView<O>,
    Seq<MapAction<I, O>>,
)
    decreases evs.len(),
{
    if evs.len() == 0 {
        (v, seq![])
    } else {
        let (w, acts) = run(v, evs.drop_last());
        let (x, a) = w.step(evs.last());
        (x, acts.push(a))
    }
}

/// The kernel keeps its contract in every event of the run.
pub open spec fn run_well_behaved<I, O>(v: MapView<O>, evs: Seq<MapEvent<I, O>>) -> bool
    decreases evs.len(),
{
    evs.len() == 0 || (run_well_behaved(v, evs.drop_last()) && run(
        v,
        evs.drop_last(),
    ).0.kernel_keeps_contract(evs.last()))
}

/// Timestamps of all data elements taken in, in order.
pub open spec fn all_inputs<I, O>(evs: Seq<MapEvent<I, O>>) -> Seq<Option<Timestamp>>
    decreases evs.len(),
{
    if evs.len() == 0 {
        seq![]
    } else {
        all_inputs(evs.drop_last()) + input_ts(evs.last())
    }
}

/// All outputs the kernel handed over, in order.
pub open spec fn all_delivered<I, O>(evs: Seq<MapEvent<I, O>>) -> Seq<O>
    decreases evs.len(),
{
    if evs.len() == 0 {
        seq![]
    } else {
        all_delivered(evs.drop_last()) + delivered(evs.last())
    }
}

/// Timestamps of all data elements emitted, in order.
pub open spec fn all_emitted_ts<I, O>(acts: Seq<MapAction<I, O>>) -> Seq<Option<Timestamp>>
    decreases acts.len(),
{
    if acts.len() == 0 {
        seq![]
    } else {
        all_emitted_ts(acts.drop_last()) + emitted_ts(acts.last())
    }
}

/// Values of all data elements emitted, in order.
pub open spec fn all_emitted_values<I, O>(acts: Seq<MapAction<I, O>>) -> Seq<O>
    decreases acts.len(),
{
    if acts.len() == 0 {
        seq![]
    } else {
        all_emitted_values(acts.drop_last()) + emitted_value(acts.last())
    }
}

/// Looking for something to emit emits the oldest output in flight, or
/// no data at all and leaves what is in flight alone.
proof fn lemma_poll_step<I, O>(v: MapView<O>)
    ensures
        emitted_ts(v.poll_action::<I>()) + v.poll_state().in_flight() == v.in_flight(),
        emitted_value(v.poll_action::<I>()) + v.poll_state().queue_values() == v.queue_values(),
{
    let f = |e: (O, Option<Timestamp>)| e.1;
    let g = |e: (O, Option<Timestamp>)| e.0;
    if v.queue.len() > 0 {
        assert(v.queue.map_values(f) =~= seq![v.queue[0].1] + v.queue.drop_first().map_values(f));
        assert(v.queue.map_values(g) =~= seq![v.queue[0].0] + v.queue.drop_first().map_values(g));
        assert(emitted_ts(v.poll_action::<I>()) == seq![v.queue[0].1]);
        assert(emitted_value(v.poll_action::<I>()) == seq![v.queue[0].0]);
        assert(emitted_ts(v.poll_action::<I>()) + v.poll_state().in_flight() =~= v.in_flight());
        assert(emitted_value(v.poll_action::<I>()) + v.poll_state().queue_values()
            =~= v.queue_values());
    } else {
        assert(emitted_ts(v.poll_action::<I>()) =~= Seq::<Option<Timestamp>>::empty());
        assert(emitted_value(v.poll_action::<I>()) =~= Seq::<O>::empty());
        assert(emitted_ts(v.poll_action::<I>()) + v.poll_state().in_flight() =~= v.in_flight());
        assert(emitted_value(v.poll_action::<I>()) + v.poll_state().queue_values()
            =~= v.queue_values());
    }
}

/// Carrying on after a flush emits the oldest output in flight, or no
/// data at all and leaves what is in flight alone.
proof fn lemma_after_flush_step<I, O>(v: MapView<O>)
    ensures
        emitted_ts(v.after_flush_action::<I>()) + v.after_flush_state().in_flight()
            == v.in_flight(),
        emitted_value(v.after_flush_action::<I>()) + v.after_flush_state().queue_values()
            == v.queue_values(),
{
    if v.phase == MapPhase::Running {
        lemma_poll_step::<I, O>(v);
    } else if v.pending.len() > 0 {
        assert(emitted_ts(v.after_flush_action::<I>()) + v.in_flight() =~= v.in_flight());
        assert(emitted_value(v.after_flush_action::<I>()) + v.queue_values() =~= v.queue_values());
    } else {
        lemma_poll_step::<I, O>(v.ended());
        assert(v.ended().in_flight() == v.in_flight());
        assert(v.ended().queue_values() == v.queue_values());
    }
}

/// Asking for a flush, or skipping it, emits no data or the oldest output
/// in flight.
proof fn lemma_flush_step<I, O>(v: MapView<O>, kernel_len: nat)
    ensures
        emitted_ts(v.flush_step_action::<I>(kernel_len)) + v.flush_step_state(
            kernel_len,
        ).in_flight() == v.in_flight(),
        emitted_value(v.flush_step_action::<I>(kernel_len)) + v.flush_step_state(
            kernel_len,
        ).queue_values() == v.queue_values(),
{
    if v.flush_needed(kernel_len) {
        assert(emitted_ts(v.flush_step_action::<I>(kernel_len)) + v.in_flight() =~= v.in_flight());
        assert(emitted_value(v.flush_step_action::<I>(kernel_len)) + v.queue_values()
            =~= v.queue_values());
    } else {
        lemma_after_flush_step::<I, O>(v);
    }
}

/// One event: what is emitted, followed by what is then in flight, is
/// what was in flight followed by what was taken in; the emitted values,
/// followed by the queued ones, are the queued ones followed by what the
/// kernel handed over.
pub proof fn lemma_step_keeps_order<I, O>(v: MapView<O>, ev: MapEvent<I, O>)
    requires
        v.kernel_keeps_contract(ev),
    ensures
        emitted_ts(v.step(ev).1) + v.step(ev).0.in_flight() == v.in_flight() + input_ts(ev),
        emitted_value(v.step(ev).1) + v.step(ev).0.queue_values() == v.queue_values()
            + delivered(ev),
{
    let g = |e: (O, Option<Timestamp>)| e.0;
    match ev {
        MapEvent::Element(e, kernel_len) => {
            match e {
                StreamElement::Item(_) => {
                    lemma_input_enters_in_flight::<O, I>(v, e, kernel_len);
                    assert(emitted_ts(v.step(ev).1) =~= Seq::<Option<Timestamp>>::empty());
                    assert(emitted_value(v.step(ev).1) =~= Seq::<O>::empty());
                    assert(emitted_ts(v.step(ev).1) + v.step(ev).0.in_flight() =~= v.in_flight()
                        + input_ts(ev));
                    assert(emitted_value(v.step(ev).1) + v.step(ev).0.queue_values()
                        =~= v.queue_values() + delivered(ev));
                },
                StreamElement::Timestamped(_, _) => {
                    lemma_input_enters_in_flight::<O, I>(v, e, kernel_len);
                    assert(emitted_ts(v.step(ev).1) =~= Seq::<Option<Timestamp>>::empty());
                    assert(emitted_value(v.step(ev).1) =~= Seq::<O>::empty());
                    assert(emitted_ts(v.step(ev).1) + v.step(ev).0.in_flight() =~= v.in_flight()
                        + input_ts(ev));
                    assert(emitted_value(v.step(ev).1) + v.step(ev).0.queue_values()
                        =~= v.queue_values() + delivered(ev));
                },
                StreamElement::Watermark(ts) => {
                    let u = MapView { max_watermark: max_watermark_with(v.max_watermark, ts), ..v };
                    lemma_poll_step::<I, O>(u);
                    assert(v.in_flight() + input_ts(ev) =~= v.in_flight());
                    assert(v.queue_values() + delivered(ev) =~= v.queue_values());
                },
                StreamElement::FlushBatch => {
                    lemma_flush_step::<I, O>(v, kernel_len);
                    assert(v.in_flight() + input_ts(ev) =~= v.in_flight());
                    assert(v.queue_values() + delivered(ev) =~= v.queue_values());
                },
                StreamElement::FlushAndRestart => {
                    lemma_flush_step::<I, O>(MapView { phase: MapPhase::Restarting, ..v }, kernel_len);
                    assert(v.in_flight() + input_ts(ev) =~= v.in_flight());
                    assert(v.queue_values() + delivered(ev) =~= v.queue_values());
                },
                StreamElement::Terminate => {
                    lemma_flush_step::<I, O>(MapView { phase: MapPhase::Terminating, ..v }, kernel_len);
                    assert(v.in_flight() + input_ts(ev) =~= v.in_flight());
                    assert(v.queue_values() + delivered(ev) =~= v.queue_values());
                },
            }
        },
        MapEvent::Pushed(flush) => {
            if !flush {
                lemma_poll_step::<I, O>(v);
            } else {
                assert(emitted_ts(v.step(ev).1) + v.in_flight() =~= v.in_flight() + input_ts(ev));
                assert(emitted_value(v.step(ev).1) + v.queue_values() =~= v.queue_values()
                    + delivered(ev));
            }
            assert(v.in_flight() + input_ts(ev) =~= v.in_flight());
            assert(v.queue_values() + delivered(ev) =~= v.queue_values());
        },
        MapEvent::Flushed(outs, sizer, now) => {
            let w = v.with_outputs(outs);
            let mid = MapView { sizer, timer_started: restarted(v.timer_started, now), ..w };
            lemma_flush_preserves_order(v, outs);
            lemma_after_flush_step::<I, O>(mid);
            if outs.len() == v.pending.len() && v.pending.len() > 0 {
                assert(paired(outs, v.pending).map_values(g) =~= outs);
                assert(w.queue_values() =~= v.queue_values() + outs);
            } else if outs.len() == v.buffered.len() && v.buffered.len() > 0 {
                assert(paired(outs, v.buffered).map_values(g) =~= outs);
                assert(w.queue_values() =~= v.queue_values() + outs);
            } else {
                assert(outs.len() == 0);
                assert(w.queue_values() =~= v.queue_values() + outs);
            }
            assert(mid.in_flight() == w.in_flight());
            assert(mid.queue_values() == w.queue_values());
            assert(v.in_flight() + input_ts(ev) =~= v.in_flight());
        },
        MapEvent::Drained(outs) => {
            let w = v.with_drained(outs);
            lemma_drain_preserves_order(v, outs);
            lemma_poll_step::<I, O>(w.ended());
            if outs.len() > 0 {
                assert(paired(outs, v.pending).map_values(g) =~= outs);
                assert(w.queue_values() =~= v.queue_values() + outs);
            } else {
                assert(w.queue_values() =~= v.queue_values() + outs);
            }
            assert(w.ended().in_flight() == w.in_flight());
            assert(w.ended().queue_values() == w.queue_values());
            assert(v.in_flight() + input_ts(ev) =~= v.in_flight());
        },
        MapEvent::Poll => {
            lemma_poll_step::<I, O>(v);
            assert(v.in_flight() + input_ts(ev) =~= v.in_flight());
            assert(v.queue_values() + delivered(ev) =~= v.queue_values());
        },
    }
}

/// Chaining two steps: what came out before, followed by what came out
/// now and what remains, is what was there at first followed by all that
/// went in.
proof fn lemma_chain<T>(
    out0: Seq<T>,
    out1: Seq<T>,
    rest: Seq<T>,
    mid: Seq<T>,
    in1: Seq<T>,
    start: Seq<T>,
    in0: Seq<T>,
)
    requires
        out0 + mid == start + in0,
        out1 + rest == mid + in1,
    ensures
        out0 + out1 + rest == start + (in0 + in1),
{
    assert(out0 + out1 + rest =~= out0 + (out1 + rest));
    assert(out0 + (mid + in1) =~= (out0 + mid) + in1);
    assert((start + in0) + in1 =~= start + (in0 + in1));
}

/// A whole run keeps order and timestamps, with a kernel that keeps its
/// contract: the timestamps of the data elements emitted, followed by
/// those still in flight, are those in flight at the start followed by
/// those of the data elements taken in, in order; the values emitted,
/// followed by those still queued, are those queued at the start followed
/// by the kernel's outputs, in order. So from a fresh operator, once
/// nothing is in flight, every input has come out once, in its order and
/// with its own timestamp, carrying the kernel's output for it.
pub proof fn lemma_run_keeps_order<I, O>(v: MapView<O>, evs: Seq<MapEvent<I, O>>)
    requires
        run_well_behaved(v, evs),
    ensures
        all_emitted_ts(run(v, evs).1) + run(v, evs).0.in_flight() == v.in_flight() + all_inputs(
            evs,
        ),
        all_emitted_values(run(v, evs).1) + run(v, evs).0.queue_values() == v.queue_values()
            + all_delivered(evs),
        v.in_flight().len() == 0 && run(v, evs).0.in_flight().len() == 0 ==> all_emitted_ts(
            run(v, evs).1,
        ) == all_inputs(evs),
        v.queue.len() == 0 && run(v, evs).0.queue.len() == 0 ==> all_emitted_values(
            run(v, evs).1,
        ) == all_delivered(evs),
    decreases evs.len(),
{
    if evs.len() == 0 {
        assert(all_emitted_ts(run(v, evs).1) =~= Seq::<Option<Timestamp>>::empty());
        assert(all_emitted_values(run(v, evs).1) =~= Seq::<O>::empty());
        assert(all_emitted_ts(run(v, evs).1) + run(v, evs).0.in_flight() =~= v.in_flight()
            + all_inputs(evs));
        assert(all_emitted_values(run(v, evs).1) + run(v, evs).0.queue_values()
            =~= v.queue_values() + all_delivered(evs));
    } else {
        let prev = evs.drop_last();
        lemma_run_keeps_order(v, prev);
        let (w, acts) = run(v, prev);
        let ev = evs.last();
        lemma_step_keeps_order(w, ev);
        let (x, a) = w.step(ev);
        assert(acts.push(a).drop_last() =~= acts);
        assert(all_emitted_ts(acts.push(a)) == all_emitted_ts(acts) + emitted_ts(a));
        assert(all_emitted_values(acts.push(a)) == all_emitted_values(acts) + emitted_value(a));
        assert(all_inputs(evs) == all_inputs(prev) + input_ts(ev));
        assert(all_delivered(evs) == all_delivered(prev) + delivered(ev));
        lemma_chain(all_emitted_ts(acts), emitted_ts(a), x.in_flight(), w.in_flight(), input_ts(ev),
            v.in_flight(), all_inputs(prev));
        lemma_chain(all_emitted_values(acts), emitted_value(a), x.queue_values(), w.queue_values(),
            delivered(ev), v.queue_values(), all_delivered(prev));
    }
    let (x, acts) = run(v, evs);
    if v.in_flight().len() == 0 && x.in_flight().len() == 0 {
        assert(all_emitted_ts(acts) + x.in_flight() =~= all_emitted_ts(acts));
        assert(v.in_flight() + all_inputs(evs) =~= all_inputs(evs));
    }
    if v.queue.len() == 0 && x.queue.len() == 0 {
        assert(all_emitted_values(acts) + x.queue_values() =~= all_emitted_values(acts));
        assert(v.queue_values() + all_delivered(evs) =~= all_delivered(evs));
    }
}

/// The action `a` was the last one asked for, and `ev` is how the driver
/// follows it up: it pulls an element after `Pull`, reports the push after
/// `Push`, flushes after `Flush`, drains after `Drain` and polls after an
/// emission.
pub open spec fn follows_up<I, O>(a: MapAction<I, O>, ev: MapEvent<I, O>) -> bool {
    match a {
        MapAction::Pull => ev is Element,
        MapAction::Push(_) => ev is Pushed,
        MapAction::Flush => ev is Flushed,
        MapAction::Drain => ev is Drained,
        MapAction::Emit(_) => ev is Poll,
    }
}

/// An emitted end-of-data marker: a watermark or an end marker.
pub open spec fn is_marker<I, O>(a: MapAction<I, O>) -> bool {
    a matches MapAction::Emit(e) && !(e is Item) && !(e is Timestamped)
}

impl<O> MapView<O> {
    /// Nothing from the end of an iteration or stream is waiting.
    pub open spec fn quiet(self) -> bool {
        !self.received_end && self.pending_watermark is None && !self.received_flush_restart
    }

    /// Once the end of an iteration or stream has been reached, nothing is
    /// left in the kernel's buffer nor pending.
    pub open spec fn end_is_clear(self) -> bool {
        !self.quiet() ==> self.buffered.len() == 0 && self.pending.len() == 0
    }

    /// What holds between a driver's calls, given the action last asked
    /// for: elements are pulled and pushed only while running and before
    /// any end; a drain is asked for only at an end, once flushed, with
    /// outputs pending; and a watermark or end marker is emitted only when
    /// nothing is in flight, and the end marker only once everything else
    /// has gone out.
    pub open spec fn protocol_ok<I>(self, a: MapAction<I, O>) -> bool {
        match a {
            MapAction::Pull => self.quiet() && self.phase == MapPhase::Running,
            MapAction::Push(_) => self.quiet() && self.phase == MapPhase::Running,
            MapAction::Flush => self.quiet(),
            MapAction::Drain => self.quiet() && self.phase != MapPhase::Running
                && self.buffered.len() == 0 && self.pending.len() > 0,
            MapAction::Emit(e) => self.end_is_clear() && self.phase == MapPhase::Running && (
            is_marker(a) ==> self.in_flight().len() == 0) && (e is Terminate ==> self.received_end
                && self.queue.len() == 0 && self.pending_watermark is None
                && !self.received_flush_restart),
        }
    }

    /// The driver hands the operator the kernel's true buffer length: one
    /// item per timestamp buffered.
    pub open spec fn kernel_len_true<I>(self, ev: MapEvent<I, O>) -> bool {
        ev matches MapEvent::Element(_, kernel_len) ==> kernel_len == self.buffered.len()
    }
}

/// Looking for something to emit, while running with a clear end, keeps
/// the protocol.
proof fn lemma_poll_keeps_protocol<I, O>(v: MapView<O>)
    requires
        v.end_is_clear(),
        v.phase == MapPhase::Running,
    ensures
        v.poll_state().protocol_ok(v.poll_action::<I>()),
{
    let f = |e: (O, Option<Timestamp>)| e.1;
    if v.queue.len() == 0 {
        assert(v.queue.map_values(f) =~= Seq::<Option<Timestamp>>::empty());
        if !v.quiet() {
            assert(v.in_flight() =~= Seq::<Option<Timestamp>>::empty());
        }
    }
}

/// Carrying on after a flush keeps the protocol, when the flush left the
/// kernel's buffer empty and nothing of an end was waiting.
proof fn lemma_after_flush_keeps_protocol<I, O>(v: MapView<O>)
    requires
        v.quiet(),
        v.buffered.len() == 0,
    ensures
        v.after_flush_state().protocol_ok(v.after_flush_action::<I>()),
{
    if v.phase == MapPhase::Running {
        lemma_poll_keeps_protocol::<I, O>(v);
    } else if v.pending.len() > 0 {
    } else {
        lemma_poll_keeps_protocol::<I, O>(v.ended());
    }
}

/// Each call, made as the driver follows up the last action with a kernel
/// that keeps its contract and its true buffer length, keeps the protocol.
pub proof fn lemma_step_keeps_protocol<I, O>(
    v: MapView<O>,
    a: MapAction<I, O>,
    ev: MapEvent<I, O>,
)
    requires
        v.protocol_ok(a),
        follows_up(a, ev),
        v.kernel_len_true(ev),
        v.kernel_keeps_contract(ev),
    ensures
        v.step(ev).0.protocol_ok(v.step(ev).1),
{
    match ev {
        MapEvent::Element(e, kernel_len) => {
            match e {
                StreamElement::Item(_) => {},
                StreamElement::Timestamped(_, _) => {},
                StreamElement::Watermark(ts) => {
                    lemma_poll_keeps_protocol::<I, O>(
                        MapView { max_watermark: max_watermark_with(v.max_watermark, ts), ..v },
                    );
                },
                StreamElement::FlushBatch => {
                    if !v.flush_needed(kernel_len) {
                        lemma_after_flush_keeps_protocol::<I, O>(v);
                    }
                },
                StreamElement::FlushAndRestart => {
                    if !v.flush_needed(kernel_len) {
                        lemma_after_flush_keeps_protocol::<I, O>(
                            MapView { phase: MapPhase::Restarting, ..v },
                        );
                    }
                },
                StreamElement::Terminate => {
                    if !v.flush_needed(kernel_len) {
                        lemma_after_flush_keeps_protocol::<I, O>(
                            MapView { phase: MapPhase::Terminating, ..v },
                        );
                    }
                },
            }
        },
        MapEvent::Pushed(flush) => {
            if !flush {
                lemma_poll_keeps_protocol::<I, O>(v);
            }
        },
        MapEvent::Flushed(outs, sizer, now) => {
            let mid = MapView {
                sizer,
                timer_started: restarted(v.timer_started, now),
                ..v.with_outputs(outs)
            };
            lemma_after_flush_keeps_protocol::<I, O>(mid);
        },
        MapEvent::Drained(outs) => {
            lemma_poll_keeps_protocol::<I, O>(v.with_drained(outs).ended());
        },
        MapEvent::Poll => {
            lemma_poll_keeps_protocol::<I, O>(v);
        },
    }
}

/// The last action of a run, or `a0` before any event.
pub open spec fn last_action<I, O>(a0: MapAction<I, O>, acts: Seq<MapAction<I, O>>) -> MapAction<
    I,
    O,
> {
    if acts.len() == 0 {
        a0
    } else {
        acts.last()
    }
}

/// The driver follows up every action, starting from `a0`, hands the
/// operator the kernel's true buffer length, and the kernel keeps its
/// contract.
pub open spec fn run_driven<I, O>(
    v: MapView<O>,
    a0: MapAction<I, O>,
    evs: Seq<MapEvent<I, O>>,
) -> bool
    decreases evs.len(),
{
    evs.len() == 0 || ({
        let (w, acts) = run(v, evs.drop_last());
        &&& run_driven(v, a0, evs.drop_last())
        &&& follows_up(last_action(a0, acts), evs.last())
        &&& w.kernel_len_true(evs.last())
        &&& w.kernel_keeps_contract(evs.last())
    })
}

/// A fresh operator, running with nothing buffered, queued, pending or
/// seen of an end, meets the protocol whatever it was last asked, but for
/// a drain or the end marker.
pub proof fn lemma_fresh_protocol<I, O>(v: MapView<O>, a0: MapAction<I, O>)
    requires
        v.buffered.len() == 0,
        v.queue.len() == 0,
        v.pending.len() == 0,
        v.quiet(),
        v.phase == MapPhase::Running,
        !(a0 is Drain),
        !(a0 matches MapAction::Emit(StreamElement::Terminate)),
    ensures
        v.protocol_ok(a0),
{
    let f = |e: (O, Option<Timestamp>)| e.1;
    assert(v.queue.map_values(f) =~= Seq::<Option<Timestamp>>::empty());
    assert(v.in_flight() =~= Seq::<Option<Timestamp>>::empty());
}

/// The whole trace of a driven run: the driver keeps to the protocol, and
/// whenever the operator emits a watermark or an end marker, every data
/// element taken in so far has come out before it, once, in order, with
/// its own timestamp, carrying the kernel's output for it. (Applied to
/// each prefix of a run, this places every marker after all the data
/// before it; [`lemma_run_watermark`] gives the watermark's value and
/// [`lemma_terminate_is_final`] the end marker repeated for ever.)
pub proof fn lemma_run_trace<I, O>(v: MapView<O>, a0: MapAction<I, O>, evs: Seq<MapEvent<I, O>>)
    requires
        v.protocol_ok(a0),
        run_driven(v, a0, evs),
    ensures
        run(v, evs).0.protocol_ok(last_action(a0, run(v, evs).1)),
        run_well_behaved(v, evs),
        is_marker(last_action(a0, run(v, evs).1)) && evs.len() > 0 ==> all_emitted_ts(
            run(v, evs).1,
        ) == v.in_flight() + all_inputs(evs) && all_emitted_values(run(v, evs).1)
            == v.queue_values() + all_delivered(evs),
    decreases evs.len(),
{
    if evs.len() > 0 {
        let prev = evs.drop_last();
        lemma_run_trace(v, a0, prev);
        let (w, acts) = run(v, prev);
        lemma_step_keeps_protocol(w, last_action(a0, acts), evs.last());
        assert(run(v, evs).1.last() == w.step(evs.last()).1);
        lemma_run_keeps_order(v, evs);
        let (x, acts2) = run(v, evs);
        if is_marker(last_action(a0, acts2)) {
            let g = |e: (O, Option<Timestamp>)| e.0;
            let f = |e: (O, Option<Timestamp>)| e.1;
            assert(x.in_flight().len() == 0);
            assert(x.queue.len() == 0) by {
                if x.queue.len() > 0 {
                    assert(x.queue.map_values(f).len() > 0);
                    assert(x.in_flight().len() >= x.queue.map_values(f).len());
                }
            }
            assert(x.queue_values() =~= Seq::<O>::empty());
            assert(all_emitted_ts(acts2) + x.in_flight() =~= all_emitted_ts(acts2));
            assert(all_emitted_values(acts2) + x.queue_values() =~= all_emitted_values(acts2));
        }
    }
}

/// Once the operator has emitted the end marker, the driver's next call
/// gets it again and changes nothing: the end marker repeats for ever.
pub proof fn lemma_terminate_is_final<I, O>(v: MapView<O>, ev: MapEvent<I, O>)
    requires
        v.protocol_ok(MapAction::<I, O>::Emit(StreamElement::Terminate)),
        follows_up(MapAction::<I, O>::Emit(StreamElement::Terminate), ev),
    ensures
        v.step(ev) == (v, MapAction::<I, O>::Emit(StreamElement::Terminate)),
{
    lemma_map_terminated_stays_terminated::<O, I>(v);
}

impl<O> MapView<O> {
    /// The watermark state of a single stream whose watermarks so far have
    /// `m` as their largest: before the end it is gathered, at the end it
    /// waits to go out (or has gone).
    pub open spec fn watermark_ok(self, m: Option<Timestamp>) -> bool {
        &&& self.phase != MapPhase::Restarting
        &&& !self.received_flush_restart
        &&& if !self.received_end {
            self.max_watermark == m && self.pending_watermark is None
        } else {
            self.max_watermark is None && (self.pending_watermark is Some
                ==> self.pending_watermark == m)
        }
    }
}

/// Largest of the watermarks taken in during a run.
pub open spec fn watermarks_max<I, O>(evs: Seq<MapEvent<I, O>>) -> Option<Timestamp>
    decreases evs.len(),
{
    if evs.len() == 0 {
        None
    } else {
        let m = watermarks_max(evs.drop_last());
        match evs.last() {
            MapEvent::Element(StreamElement::Watermark(ts), _) => max_watermark_with(m, ts),
            _ => m,
        }
    }
}

/// No event of the run ends an iteration: a single stream.
pub open spec fn single_iteration<I, O>(evs: Seq<MapEvent<I, O>>) -> bool
    decreases evs.len(),
{
    evs.len() == 0 || (single_iteration(evs.drop_last()) && !(evs.last() matches MapEvent::Element(
        StreamElement::FlushAndRestart,
        _,
    )))
}

/// Looking for something to emit keeps the watermark state, and a
/// watermark emitted is the largest.
proof fn lemma_poll_watermark<I, O>(v: MapView<O>, m: Option<Timestamp>)
    requires
        v.watermark_ok(m),
    ensures
        v.poll_state().watermark_ok(m),
        v.poll_action::<I>() matches MapAction::Emit(StreamElement::Watermark(w)) ==> m == Some(w),
{
}

/// Carrying on after a flush keeps the watermark state, and a watermark
/// emitted is the largest.
proof fn lemma_after_flush_watermark<I, O>(v: MapView<O>, m: Option<Timestamp>)
    requires
        v.watermark_ok(m),
        !v.received_end,
    ensures
        v.after_flush_state().watermark_ok(m),
        v.after_flush_action::<I>() matches MapAction::Emit(StreamElement::Watermark(w)) ==> m
            == Some(w),
{
    if v.phase == MapPhase::Running {
        lemma_poll_watermark::<I, O>(v, m);
    } else if v.pending.len() > 0 {
    } else {
        lemma_poll_watermark::<I, O>(v.ended(), m);
    }
}

/// One driven event of a single stream keeps the watermark state, and a
/// watermark emitted is the largest taken in.
proof fn lemma_step_watermark<I, O>(
    v: MapView<O>,
    a: MapAction<I, O>,
    ev: MapEvent<I, O>,
    m: Option<Timestamp>,
)
    requires
        v.protocol_ok(a),
        follows_up(a, ev),
        v.watermark_ok(m),
        !(ev matches MapEvent::Element(StreamElement::FlushAndRestart, _)),
    ensures
        ({
            let m2 = match ev {
                MapEvent::Element(StreamElement::Watermark(ts), _) => max_watermark_with(m, ts),
                _ => m,
            };
            &&& v.step(ev).0.watermark_ok(m2)
            &&& v.step(ev).1 matches MapAction::Emit(StreamElement::Watermark(w)) ==> m2 == Some(w)
        }),
{
    match ev {
        MapEvent::Element(e, kernel_len) => {
            match e {
                StreamElement::Watermark(ts) => {
                    let u = MapView { max_watermark: max_watermark_with(v.max_watermark, ts), ..v };
                    lemma_poll_watermark::<I, O>(u, max_watermark_with(m, ts));
                },
                StreamElement::FlushBatch => {
                    if !v.flush_needed(kernel_len) {
                        lemma_after_flush_watermark::<I, O>(v, m);
                    }
                },
                StreamElement::Terminate => {
                    if !v.flush_needed(kernel_len) {
                        lemma_after_flush_watermark::<I, O>(
                            MapView { phase: MapPhase::Terminating, ..v },
                            m,
                        );
                    }
                },
                _ => {},
            }
        },
        MapEvent::Pushed(flush) => {
            if !flush {
                lemma_poll_watermark::<I, O>(v, m);
            }
        },
        MapEvent::Flushed(outs, sizer, now) => {
            let mid = MapView {
                sizer,
                timer_started: restarted(v.timer_started, now),
                ..v.with_outputs(outs)
            };
            lemma_after_flush_watermark::<I, O>(mid, m);
        },
        MapEvent::Drained(outs) => {
            lemma_poll_watermark::<I, O>(v.with_drained(outs).ended(), m);
        },
        MapEvent::Poll => {
            lemma_poll_watermark::<I, O>(v, m);
        },
    }
}

/// The end of a single driven stream: the watermark the operator emits is
/// the largest of all watermarks taken in (it is emitted once, after all
/// the data, by [`lemma_run_trace`]), and once the end marker has been
/// emitted it is emitted at every later call ([`lemma_terminate_is_final`]).
pub proof fn lemma_run_watermark<I, O>(v: MapView<O>, a0: MapAction<I, O>, evs: Seq<MapEvent<I, O>>)
    requires
        v.protocol_ok(a0),
        run_driven(v, a0, evs),
        single_iteration(evs),
        v.watermark_ok(None),
    ensures
        run(v, evs).0.watermark_ok(watermarks_max(evs)),
        evs.len() > 0 ==> (last_action(a0, run(v, evs).1) matches MapAction::Emit(
            StreamElement::Watermark(w),
        ) ==> watermarks_max(evs) == Some(w)),
    decreases evs.len(),
{
    if evs.len() > 0 {
        let prev = evs.drop_last();
        lemma_run_watermark(v, a0, prev);
        lemma_run_trace(v, a0, prev);
        let (w, acts) = run(v, prev);
        lemma_step_watermark(w, last_action(a0, acts), evs.last(), watermarks_max(prev));
        assert(run(v, evs).1.last() == w.step(evs.last()).1);
    }
}

/// A watermark taken in raises the largest watermark seen: afterwards it
/// is at least the new watermark and at least the one before, and is one
/// of the two. Nothing buffered, queued or pending changes.
pub proof fn lemma_watermark_keeps_largest<O, I>(v: MapView<O>, ts: Timestamp, kernel_len: nat)
    ensures
        ({
            let w = v.element_state(StreamElement::<I>::Watermark(ts), kernel_len);
            &&& w.max_watermark matches Some(m) && m >= ts && (v.max_watermark matches Some(c)
                ==> m >= c) && (m == ts || v.max_watermark == Some(m))
        }),
{
}

/// The watermark carried by the `i`-th event, if it is one.
pub open spec fn watermark_at<I, O>(evs: Seq<MapEvent<I, O>>, i: int) -> Option<Timestamp> {
    match evs[i] {
        MapEvent::Element(StreamElement::Watermark(w), _) => Some(w),
        _ => None,
    }
}

/// The largest watermark of a run is the integer maximum of the
/// watermarks taken in: at least each of them, and one of them; there is
/// none exactly when no watermark was taken in.
pub proof fn lemma_watermarks_max_is_maximum<I, O>(evs: Seq<MapEvent<I, O>>)
    ensures
        forall|i: int|
            #![trigger watermark_at(evs, i)]
            0 <= i < evs.len() && watermark_at(evs, i) is Some ==> (watermarks_max(evs) matches Some(
                m,
            ) && m >= watermark_at(evs, i)->Some_0),
        watermarks_max(evs) matches Some(m) ==> exists|i: int|
            0 <= i < evs.len() && #[trigger] watermark_at(evs, i) == Some(m),
        watermarks_max(evs) is None ==> forall|i: int|
            0 <= i < evs.len() ==> #[trigger] watermark_at(evs, i) is None,
    decreases evs.len(),
{
    if evs.len() > 0 {
        let prev = evs.drop_last();
        lemma_watermarks_max_is_maximum(prev);
        let n = evs.len() - 1;
        assert forall|i: int| 0 <= i < n implies #[trigger] watermark_at(evs, i) == watermark_at(
            prev,
            i,
        ) by {
            assert(evs[i] == prev[i]);
        }
        let mp = watermarks_max(prev);
        match evs.last() {
            MapEvent::Element(StreamElement::Watermark(ts), _) => {
                assert(watermark_at(evs, n) == Some(ts));
                if let Some(m) = watermarks_max(evs) {
                    if m == ts {
                        assert(watermark_at(evs, n) == Some(m));
                    } else {
                        let j = choose|j: int| 0 <= j < prev.len() && watermark_at(prev, j) == mp;
                        assert(watermark_at(evs, j) == Some(m));
                    }
                }
            },
            _ => {
                assert(watermark_at(evs, n) is None);
                if let Some(m) = watermarks_max(evs) {
                    let j = choose|j: int| 0 <= j < prev.len() && watermark_at(prev, j) == Some(m);
                    assert(watermark_at(evs, j) == Some(m));
                }
            },
        }
    }
}

/// The flush decision in numbers: with a batch sizer the kernel is
/// flushed by size exactly when it holds at least the sizer's current
/// batch size, without one when it holds at least the strategy's size;
/// before that only the timed strategy's timer can ask for a flush, and
/// an empty kernel is never flushed.
pub proof fn lemma_flush_decision_in_numbers<O>(v: MapView<O>, n: nat, timer_due: bool)
    ensures
        v.sizer matches Some(s) ==> (v.flush_decision(n, timer_due) == (n > 0 && (n >= s.current()
            || (v.timed && timer_due)))),
        v.sizer is None ==> (v.flush_decision(n, timer_due) == (n > 0 && (n
            >= v.strategy.target_batch() || (v.timed && timer_due)))),
        v.sizer matches Some(s) ==> (!v.timed ==> (v.flush_decision(n, timer_due) == (n > 0 && n
            >= s.current()))),
{
}

} // verus!
