//! The GPU reduce operator: configuration, the batch buffer, the tiling of
//! a batch for the two-pass GPU reduction, and the state machine that
//! decides when to flush and what to emit.
//!
//! The GPU work itself (uploading a batch, running the reduction kernels
//! and merging the partial result into the accumulated value) is done by
//! the driver around this state machine.
use vstd::prelude::*;

use crate::operator::{StreamElement, Timestamp};

verus! {

/// Number of elements buffered before a GPU dispatch, by default.
pub const DEFAULT_BATCH_SIZE: usize = 65_536;

/// Number of elements per GPU tile, by default.
pub const DEFAULT_TILE_SIZE: usize = 262_144;

/// Errors of the GPU reduce operator.
#[derive(Debug, Clone, PartialEq)]
pub enum ReduceGpuError {
    /// No GPU backend could be initialised.
    NoAvailableBackend,
    /// The GPU runtime could not be used.
    GpuUnavailable(String),
    /// The GPU reduction failed.
    CubeCl(String),
}

/// Available GPU reduce operations.
#[derive(Clone, Copy, Debug, PartialEq, Eq, Structural)]
pub enum ReduceKernel {
    /// Element-wise sum reduction.
    Sum,
    /// Element-wise product reduction.
    Product,
    /// Minimum value reduction.
    Min,
    /// Maximum value reduction.
    Max,
}

impl ReduceKernel {
    /// The name of the operation.
    pub open spec fn name(self) -> Seq<char> {
        match self {
            ReduceKernel::Sum => "sum"@,
            ReduceKernel::Product => "product"@,
            ReduceKernel::Min => "min"@,
            ReduceKernel::Max => "max"@,
        }
    }

    /// The name of the operation, for logs.
    pub fn label(&self) -> (r: &'static str)
        ensures
            r@ == self.name(),
    {
        match self {
            ReduceKernel::Sum => "sum",
            ReduceKernel::Product => "product",
            ReduceKernel::Min => "min",
            ReduceKernel::Max => "max",
        }
    }
}

/// Selects which GPU backend to use for reduction.
#[derive(Clone, Copy, Debug, PartialEq, Eq, Structural)]
pub enum ReduceGpuBackend {
    /// Automatically select the best available backend: WGPU if it comes
    /// up, CUDA otherwise.
    Auto,
    /// Use the WGPU backend (Metal, Vulkan, DirectX 12).
    Wgpu,
    /// Use the CUDA backend (NVIDIA GPUs).
    Cuda,
}

impl Default for ReduceGpuBackend {
    /// The WGPU backend.
    fn default() -> (b: Self)
        ensures
            b == ReduceGpuBackend::Wgpu,
    {
        ReduceGpuBackend::Wgpu
    }
}

/// Numeric precision of a backend's computation.
#[derive(Clone, Copy, Debug, PartialEq, Eq, Structural)]
pub enum GpuPrecision {
    /// Single precision: portable adapters seldom offer doubles.
    F32,
    /// Double precision.
    F64,
}

/// The backend that a request resolves to.
#[derive(Clone, Copy, Debug, PartialEq, Eq, Structural)]
pub enum ResolvedBackend {
    /// The WGPU runtime, computing in `f32`.
    Wgpu,
    /// The CUDA runtime, computing in `f64`.
    Cuda,
}

impl ResolvedBackend {
    /// The precision the backend computes in: `f32` on WGPU, `f64` on CUDA.
    pub fn precision(self) -> (p: GpuPrecision)
        ensures
            p == (match self {
                ResolvedBackend::Wgpu => GpuPrecision::F32,
                ResolvedBackend::Cuda => GpuPrecision::F64,
            }),
    {
        match self {
            ResolvedBackend::Wgpu => GpuPrecision::F32,
            ResolvedBackend::Cuda => GpuPrecision::F64,
        }
    }
}

/// The backend a request resolves to, given whether each runtime came up:
/// `Auto` takes WGPU, else CUDA, else reports that no backend is
/// available; an explicit request gets its runtime or that runtime's
/// error.
pub open spec fn resolved(
    request: ReduceGpuBackend,
    wgpu: Result<(), ReduceGpuError>,
    cuda: Result<(), ReduceGpuError>,
) -> Result<ResolvedBackend, ReduceGpuError> {
    match request {
        ReduceGpuBackend::Auto => if wgpu is Ok {
            Ok(ResolvedBackend::Wgpu)
        } else if cuda is Ok {
            Ok(ResolvedBackend::Cuda)
        } else {
            Err(ReduceGpuError::NoAvailableBackend)
        },
        ReduceGpuBackend::Wgpu => match wgpu {
            Ok(_) => Ok(ResolvedBackend::Wgpu),
            Err(e) => Err(e),
        },
        ReduceGpuBackend::Cuda => match cuda {
            Ok(_) => Ok(ResolvedBackend::Cuda),
            Err(e) => Err(e),
        },
    }
}

impl ReduceGpuBackend {
    /// Whether resolving this request consults the WGPU runtime: unless
    /// CUDA is asked for.
    pub open spec fn consults_wgpu(self) -> bool {
        !(self is Cuda)
    }

    /// Whether resolving this request consults the CUDA runtime, given
    /// whether WGPU came up: when CUDA is asked for, or as the fallback of
    /// `Auto`.
    pub open spec fn consults_cuda(self, wgpu_up: bool) -> bool {
        self is Cuda || (self is Auto && !wgpu_up)
    }

    /// Whether the WGPU device must be opened for this request.
    pub fn needs_wgpu(self) -> (r: bool)
        ensures
            r == self.consults_wgpu(),
    {
        match self {
            ReduceGpuBackend::Cuda => false,
            _ => true,
        }
    }

    /// Whether the CUDA device must be opened for this request, given
    /// whether the WGPU one came up.
    pub fn needs_cuda(self, wgpu_up: bool) -> (r: bool)
        ensures
            r == self.consults_cuda(wgpu_up),
    {
        match self {
            ReduceGpuBackend::Cuda => true,
            ReduceGpuBackend::Auto => !wgpu_up,
            ReduceGpuBackend::Wgpu => false,
        }
    }

    /// Picks the backend, given whether the WGPU and the CUDA runtimes came
    /// up (see [`resolved`]).
    pub fn resolve_backend(
        self,
        wgpu: Result<(), ReduceGpuError>,
        cuda: Result<(), ReduceGpuError>,
    ) -> (r: Result<ResolvedBackend, ReduceGpuError>)
        ensures
            r == resolved(self, wgpu, cuda),
    {
        match self {
            ReduceGpuBackend::Auto => {
                if wgpu.is_ok() {
                    return Ok(ResolvedBackend::Wgpu);
                }
                if cuda.is_ok() {
                    return Ok(ResolvedBackend::Cuda);
                }
                Err(ReduceGpuError::NoAvailableBackend)
            },
            ReduceGpuBackend::Wgpu => match wgpu {
                Ok(()) => Ok(ResolvedBackend::Wgpu),
                Err(e) => Err(e),
            },
            ReduceGpuBackend::Cuda => match cuda {
                Ok(()) => Ok(ResolvedBackend::Cuda),
                Err(e) => Err(e),
            },
        }
    }
}

/// A runtime that a request does not consult does not change what it
/// resolves to, so a device that is not needed need not be opened.
pub proof fn lemma_unconsulted_runtime_ignored(
    request: ReduceGpuBackend,
    wgpu: Result<(), ReduceGpuError>,
    other_wgpu: Result<(), ReduceGpuError>,
    cuda: Result<(), ReduceGpuError>,
    other_cuda: Result<(), ReduceGpuError>,
)
    ensures
        !request.consults_wgpu() ==> resolved(request, wgpu, cuda) == resolved(
            request,
            other_wgpu,
            cuda,
        ),
        !request.consults_cuda(wgpu is Ok) ==> resolved(request, wgpu, cuda) == resolved(
            request,
            wgpu,
            other_cuda,
        ),
{
}

/// Configuration for the GPU reduce operator.
#[derive(Clone, Copy, Debug)]
pub struct ReduceGpuConfig {
    /// Number of elements to buffer before flushing to the GPU.
    pub batch_size: usize,
    /// Which GPU backend to use.
    pub backend: ReduceGpuBackend,
    /// Number of elements per GPU tile.
    pub tile_size: usize,
}

impl Default for ReduceGpuConfig {
    /// Batches of 65,536 elements, the default backend, tiles of 262,144.
    fn default() -> (c: Self)
        ensures
            c.batch_size == DEFAULT_BATCH_SIZE,
            c.backend == ReduceGpuBackend::Wgpu,
            c.tile_size == DEFAULT_TILE_SIZE,
    {
        ReduceGpuConfig {
            batch_size: DEFAULT_BATCH_SIZE,
            backend: ReduceGpuBackend::default(),
            tile_size: DEFAULT_TILE_SIZE,
        }
    }
}

/// `n`, or one when `n` is zero.
pub open spec fn at_least_one(n: usize) -> usize {
    if n == 0 {
        1
    } else {
        n
    }
}

impl ReduceGpuConfig {
    /// Set the batch size; zero counts as one.
    pub fn with_batch_size(self, batch_size: usize) -> (c: Self)
        ensures
            c == (ReduceGpuConfig { batch_size: at_least_one(batch_size), ..self }),
    {
        let mut c = self;
        c.batch_size = if batch_size > 1 {
            batch_size
        } else {
            1
        };
        c
    }

    /// Set the GPU backend.
    pub fn with_backend(self, backend: ReduceGpuBackend) -> (c: Self)
        ensures
            c == (ReduceGpuConfig { backend, ..self }),
    {
        let mut c = self;
        c.backend = backend;
        c
    }

    /// Set the tile size; zero counts as one.
    pub fn with_tile_size(self, tile_size: usize) -> (c: Self)
        ensures
            c == (ReduceGpuConfig { tile_size: at_least_one(tile_size), ..self }),
    {
        let mut c = self;
        c.tile_size = if tile_size > 1 {
            tile_size
        } else {
            1
        };
        c
    }
}

// ---------------------------------------------------------------------------
// Batch buffer
// ---------------------------------------------------------------------------

/// How many identity elements bring `len` to a multiple of `tile`; none
/// when the tile is zero or larger than the batch, or the batch already
/// fits.
pub open spec fn padding_needed(len: nat, tile: nat) -> nat {
    if tile == 0 || len < tile || len % tile == 0 {
        0
    } else {
        (tile - len % tile) as nat
    }
}

/// Values buffered for the next GPU reduction.
pub struct BatchStorage<T> {
    values: Vec<T>,
}

impl<T> View for BatchStorage<T> {
    type V = Seq<T>;

    closed spec fn view(&self) -> Seq<T> {
        self.values@
    }
}

impl<T: Copy> BatchStorage<T> {
    /// An empty buffer with room for `capacity` values.
    pub fn new(capacity: usize) -> (b: Self)
        ensures
            b@ == Seq::<T>::empty(),
    {
        BatchStorage { values: Vec::with_capacity(capacity) }
    }

    /// Buffer one value.
    pub fn push(&mut self, value: T)
        ensures
            final(self)@ == old(self)@.push(value),
    {
        self.values.push(value);
    }

    /// Number of buffered values.
    pub fn len(&self) -> (r: usize)
        ensures
            r == self@.len(),
    {
        self.values.len()
    }

    /// Whether nothing is buffered.
    pub fn is_empty(&self) -> (r: bool)
        ensures
            r == (self@.len() == 0),
    {
        self.values.len() == 0
    }

    /// Drop every buffered value.
    pub fn clear(&mut self)
        ensures
            final(self)@ == Seq::<T>::empty(),
    {
        self.values.clear();
    }

    /// The buffered values.
    pub fn as_slice(&self) -> (r: &[T])
        ensures
            r@ == self@,
    {
        self.values.as_slice()
    }

    /// Pads the buffer with `identity` up to a multiple of `tile`, unless
    /// the tile is zero, larger than the buffer, or already a divisor of
    /// its length.
    pub fn pad_to_multiple(&mut self, tile: usize, identity: T)
        ensures
            final(self)@ == old(self)@ + Seq::new(
                padding_needed(old(self)@.len(), tile as nat),
                |_i: int| identity,
            ),
    {
        if tile == 0 {
            assert(old(self)@ + Seq::new(0, |_i: int| identity) =~= old(self)@);
            return ;
        }
        let len = self.values.len();
        if len < tile {
            assert(old(self)@ + Seq::new(0, |_i: int| identity) =~= old(self)@);
            return ;
        }
        let remainder = len % tile;
        if remainder == 0 {
            assert(old(self)@ + Seq::new(0, |_i: int| identity) =~= old(self)@);
            return ;
        }
        let needed = tile - remainder;
        let mut i: usize = 0;
        while i < needed
            invariant
                i <= needed,
                self.values@ == old(self)@ + Seq::new(i as nat, |_i: int| identity),
            decreases needed - i,
        {
            self.values.push(identity);
            assert(old(self)@ + Seq::new((i + 1) as nat, |_i: int| identity) =~= old(self)@
                + Seq::new(i as nat, |_i: int| identity) + seq![identity]);
            i = i + 1;
        }
    }
}

/// Padding a batch at least one tile long leaves a whole number of tiles,
/// and adds less than one tile.
pub proof fn lemma_padding_fills_tiles(len: nat, tile: nat)
    requires
        0 < tile <= len,
    ensures
        (len + padding_needed(len, tile)) % (tile as nat) == 0,
        padding_needed(len, tile) < tile,
{
    if len % tile != 0 {
        let q = len / tile;
        let r = len % tile;
        assert(len == q * tile + r) by (nonlinear_arith)
            requires q == len / tile, r == len % tile, tile > 0;
        assert(len + (tile - r) == (q + 1) * tile) by (nonlinear_arith)
            requires len == q * tile + r;
        assert(((q + 1) * tile) % (tile as nat) == 0) by (nonlinear_arith)
            requires tile > 0;
    }
}

// ---------------------------------------------------------------------------
// Tiling of a batch for the two-pass reduction
// ---------------------------------------------------------------------------

/// The tile of the GPU reduction: the requested tile size (at least one),
/// but no more than the whole batch.
pub open spec fn tile_of(len: nat, tile_size: nat) -> nat {
    let t = if tile_size == 0 {
        1
    } else {
        tile_size
    };
    if t > len {
        len
    } else {
        t
    }
}

/// Tile and tile count for reducing `len` values: the first pass reduces
/// each tile to one partial value, the second reduces the partials.
pub fn tile_layout(len: usize, tile_size: usize) -> (r: (usize, usize))
    requires
        len > 0,
    ensures
        r.0 == tile_of(len as nat, tile_size as nat),
        r.0 > 0,
        r.1 == len / r.0,
        r.1 > 0,
{
    let mut chunk = if tile_size > 1 {
        tile_size
    } else {
        1
    };
    if chunk > len {
        chunk = len;
    }
    let num_chunks = len / chunk;
    assert(num_chunks > 0) by (nonlinear_arith)
        requires num_chunks == len / chunk, 0 < chunk <= len;
    (chunk, num_chunks)
}

/// Shapes and strides of the tensors of the two-pass reduction of a batch.
#[derive(Clone, Copy, Debug, PartialEq, Eq)]
pub struct ReduceLayout {
    /// Values per tile.
    pub tile: usize,
    /// Number of tiles.
    pub tiles: usize,
    /// The batch as a row-major matrix of one row per tile.
    pub input_shape: [usize; 2],
    /// Strides of that matrix.
    pub input_strides: [usize; 2],
    /// The first pass's output: one partial value per tile.
    pub partial_shape: [usize; 2],
    /// Strides of the partial values.
    pub partial_strides: [usize; 2],
    /// The partial values read as a vector by the second pass.
    pub partials_shape: [usize; 1],
    /// Strides of that vector.
    pub partials_strides: [usize; 1],
    /// The single result.
    pub result_shape: [usize; 1],
    /// Strides of the result.
    pub result_strides: [usize; 1],
    /// Bytes of the buffer of partial values.
    pub partial_bytes: usize,
}

/// The layout of the reduction of `len` values of `elem_size` bytes with
/// the requested tile size: the first pass reduces each row of a
/// (tiles × tile) matrix along its rows, the second the column of partial
/// values to one value.
pub fn reduce_layout(len: usize, tile_size: usize, elem_size: usize) -> (r: ReduceLayout)
    requires
        len > 0,
        len * elem_size <= usize::MAX,
    ensures
        r.tile == tile_of(len as nat, tile_size as nat),
        r.tile > 0,
        r.tiles == len / r.tile,
        r.tiles > 0,
        r.input_shape@ == seq![r.tiles, r.tile],
        r.input_strides@ == seq![r.tile, 1usize],
        r.partial_shape@ == seq![r.tiles, 1usize],
        r.partial_strides@ == seq![1usize, 1usize],
        r.partials_shape@ == seq![r.tiles],
        r.partials_strides@ == seq![1usize],
        r.result_shape@ == seq![1usize],
        r.result_strides@ == seq![1usize],
        r.partial_bytes == r.tiles * elem_size,
        len % r.tile == 0 ==> r.tiles * r.tile == len,
{
    let (tile, tiles) = tile_layout(len, tile_size);
    proof {
        assert(tiles * elem_size <= len * elem_size) by (nonlinear_arith)
            requires tiles == len / tile, tile > 0, elem_size >= 0, len >= 0;
        assert(len % tile == 0 ==> tiles * tile == len) by (nonlinear_arith)
            requires tiles == len / tile, tile > 0;
    }
    let layout = ReduceLayout {
        tile,
        tiles,
        input_shape: [tiles, tile],
        input_strides: [tile, 1],
        partial_shape: [tiles, 1],
        partial_strides: [1, 1],
        partials_shape: [tiles],
        partials_strides: [1],
        result_shape: [1],
        result_strides: [1],
        partial_bytes: tiles * elem_size,
    };
    assert(layout.input_shape@ =~= seq![tiles, tile]);
    assert(layout.input_strides@ =~= seq![tile, 1usize]);
    assert(layout.partial_shape@ =~= seq![tiles, 1usize]);
    assert(layout.partial_strides@ =~= seq![1usize, 1usize]);
    assert(layout.partials_shape@ =~= seq![tiles]);
    assert(layout.partials_strides@ =~= seq![1usize]);
    assert(layout.result_shape@ =~= seq![1usize]);
    assert(layout.result_strides@ =~= seq![1usize]);
    layout
}

// ---------------------------------------------------------------------------
// The reduce operator's decisions
// ---------------------------------------------------------------------------

/// What the driver of a [`ReduceGpu`] does next.
#[derive(Debug, PartialEq)]
pub enum ReduceAction<A> {
    /// Pull the next element from upstream and hand it to
    /// [`ReduceGpu::on_element`].
    Pull,
    /// Reduce the buffered batch on the GPU: call
    /// [`ReduceGpu::prepare_flush`], reduce [`ReduceGpu::batch_values`]
    /// tile by tile, merge the result into [`ReduceGpu::accumulator`] and
    /// hand the merged value to [`ReduceGpu::flush_done`].
    Flush,
    /// Return this element downstream.
    Emit(StreamElement<A>),
}

/// The abstract state of a [`ReduceGpu`].
#[verifier::ext_equal]
pub struct ReduceView<T, A> {
    /// The reduction.
    pub kernel: ReduceKernel,
    /// Values buffered since the last flush.
    pub batch: Seq<T>,
    /// Number of values that triggers a flush.
    pub batch_size: nat,
    /// Requested tile size.
    pub tile_size: nat,
    /// Value reduced so far.
    pub accumulator: Option<A>,
    /// Largest timestamp of the timestamped items seen.
    pub timestamp: Option<Timestamp>,
    /// Largest watermark seen.
    pub max_watermark: Option<Timestamp>,
    /// Upstream has ended the stream or the iteration.
    pub received_end: bool,
    /// Upstream has ended the iteration.
    pub received_end_iter: bool,
}

/// The larger of an optional timestamp and a new one.
pub open spec fn max_ts(cur: Option<Timestamp>, ts: Timestamp) -> Option<Timestamp> {
    match cur {
        Some(c) => Some(if ts > c { ts } else { c }),
        None => Some(ts),
    }
}

impl<T, A> ReduceView<T, A> {
    /// The state once `e` has been taken in (before any flush it calls for).
    pub open spec fn absorb(self, e: StreamElement<T>) -> Self {
        match e {
            StreamElement::Item(x) => ReduceView { batch: self.batch.push(x), ..self },
            StreamElement::Timestamped(x, ts) => ReduceView {
                batch: self.batch.push(x),
                timestamp: max_ts(self.timestamp, ts),
                ..self
            },
            StreamElement::Watermark(ts) => ReduceView {
                max_watermark: max_ts(self.max_watermark, ts),
                ..self
            },
            StreamElement::FlushBatch => self,
            StreamElement::FlushAndRestart => ReduceView {
                received_end: true,
                received_end_iter: true,
                ..self
            },
            StreamElement::Terminate => ReduceView { received_end: true, ..self },
        }
    }

    /// Whether taking in `e` calls for a flush: a data item that fills the
    /// batch, or a flush or end marker while values are buffered.
    pub open spec fn flush_due(self, e: StreamElement<T>) -> bool {
        let next = self.absorb(e);
        match e {
            StreamElement::Item(_) => next.batch.len() >= self.batch_size,
            StreamElement::Timestamped(_, _) => next.batch.len() >= self.batch_size,
            StreamElement::Watermark(_) => false,
            _ => next.batch.len() > 0,
        }
    }

    /// The state once a batch has been reduced on the GPU and `merged`, the
    /// value reduced so far combined with the batch's, recorded: the batch
    /// is empty.
    pub open spec fn flushed(self, merged: A) -> Self {
        ReduceView { batch: Seq::empty(), accumulator: Some(merged), ..self }
    }

    /// The state after looking for something to emit.
    pub open spec fn poll_state(self) -> Self {
        if !self.received_end {
            self
        } else if self.accumulator is Some {
            ReduceView { accumulator: None, timestamp: None, ..self }
        } else if self.max_watermark is Some {
            ReduceView { max_watermark: None, ..self }
        } else if self.received_end_iter {
            ReduceView { received_end: false, received_end_iter: false, ..self }
        } else {
            self
        }
    }

    /// What is done after looking for something to emit: pull while the
    /// input goes on; at its end emit the reduced value (with the largest
    /// timestamp, if any), then the largest watermark, then the end marker.
    pub open spec fn poll_action(self) -> ReduceAction<A> {
        if !self.received_end {
            ReduceAction::Pull
        } else if self.accumulator is Some {
            ReduceAction::Emit(
                match self.timestamp {
                    Some(ts) => StreamElement::Timestamped(self.accumulator->Some_0, ts),
                    None => StreamElement::Item(self.accumulator->Some_0),
                },
            )
        } else if self.max_watermark is Some {
            ReduceAction::Emit(StreamElement::Watermark(self.max_watermark->Some_0))
        } else if self.received_end_iter {
            ReduceAction::Emit(StreamElement::FlushAndRestart)
        } else {
            ReduceAction::Emit(StreamElement::Terminate)
        }
    }
}

/// The decisions of the GPU reduce operator: it buffers values, asks for a
/// GPU flush whenever the batch is full or upstream asks for one, and at
/// the end of the input emits the reduced value, the largest watermark and
/// the end marker.
pub struct ReduceGpu<T, A> {
    kernel: ReduceKernel,
    batch: BatchStorage<T>,
    batch_size: usize,
    tile_size: usize,
    accumulator: Option<A>,
    timestamp: Option<Timestamp>,
    max_watermark: Option<Timestamp>,
    received_end: bool,
    received_end_iter: bool,
}

impl<T, A> View for ReduceGpu<T, A> {
    type V = ReduceView<T, A>;

    closed spec fn view(&self) -> ReduceView<T, A> {
        ReduceView {
            kernel: self.kernel,
            batch: self.batch@,
            batch_size: self.batch_size as nat,
            tile_size: self.tile_size as nat,
            accumulator: self.accumulator,
            timestamp: self.timestamp,
            max_watermark: self.max_watermark,
            received_end: self.received_end,
            received_end_iter: self.received_end_iter,
        }
    }
}

/// The larger of an optional timestamp and a new one.
fn max_timestamp(cur: Option<Timestamp>, ts: Timestamp) -> (r: Option<Timestamp>)
    ensures
        r == max_ts(cur, ts),
{
    match cur {
        Some(c) => Some(if ts > c { ts } else { c }),
        None => Some(ts),
    }
}

impl<T: Copy, A: Copy> ReduceGpu<T, A> {
    /// A reduce operator with the given kernel and configuration; batch
    /// and tile sizes of zero count as one.
    pub fn new(kernel: ReduceKernel, config: ReduceGpuConfig) -> (r: Self)
        ensures
            r@ == (ReduceView::<T, A> {
                kernel,
                batch: Seq::empty(),
                batch_size: at_least_one(config.batch_size) as nat,
                tile_size: at_least_one(config.tile_size) as nat,
                accumulator: None,
                timestamp: None,
                max_watermark: None,
                received_end: false,
                received_end_iter: false,
            }),
    {
        let batch_size = if config.batch_size > 1 {
            config.batch_size
        } else {
            1
        };
        let tile_size = if config.tile_size > 1 {
            config.tile_size
        } else {
            1
        };
        ReduceGpu {
            kernel,
            batch: BatchStorage::new(batch_size),
            batch_size,
            tile_size,
            accumulator: None,
            timestamp: None,
            max_watermark: None,
            received_end: false,
            received_end_iter: false,
        }
    }

    /// A fresh operator with the same kernel and sizes and nothing
    /// buffered or seen, as made for each replica of the operator.
    pub fn clone_reset(&self) -> (r: Self)
        ensures
            r@ == (ReduceView::<T, A> {
                batch: Seq::empty(),
                accumulator: None,
                timestamp: None,
                max_watermark: None,
                received_end: false,
                received_end_iter: false,
                ..self@
            }),
    {
        ReduceGpu {
            kernel: self.kernel,
            batch: BatchStorage::new(self.batch_size),
            batch_size: self.batch_size,
            tile_size: self.tile_size,
            accumulator: None,
            timestamp: None,
            max_watermark: None,
            received_end: false,
            received_end_iter: false,
        }
    }

    /// The reduction this operator computes.
    pub fn kernel(&self) -> (k: ReduceKernel)
        ensures
            k == self@.kernel,
    {
        self.kernel
    }

    /// The value reduced so far.
    pub fn accumulator(&self) -> (a: Option<A>)
        ensures
            a == self@.accumulator,
    {
        self.accumulator
    }

    /// The values buffered for the next flush.
    pub fn batch_values(&self) -> (r: &[T])
        ensures
            r@ == self@.batch,
    {
        self.batch.as_slice()
    }

    /// Looks for something to emit; pulls while the input goes on.
    pub fn poll(&mut self) -> (a: ReduceAction<A>)
        ensures
            final(self)@ == old(self)@.poll_state(),
            a == old(self)@.poll_action(),
    {
        if !self.received_end {
            return ReduceAction::Pull;
        }
        match self.accumulator {
            Some(value) => {
                self.accumulator = None;
                match self.timestamp {
                    Some(ts) => {
                        self.timestamp = None;
                        return ReduceAction::Emit(StreamElement::Timestamped(value, ts));
                    },
                    None => {
                        return ReduceAction::Emit(StreamElement::Item(value));
                    },
                }
            },
            None => {},
        }
        match self.max_watermark {
            Some(ts) => {
                self.max_watermark = None;
                return ReduceAction::Emit(StreamElement::Watermark(ts));
            },
            None => {},
        }
        if self.received_end_iter {
            self.received_end_iter = false;
            self.received_end = false;
            return ReduceAction::Emit(StreamElement::FlushAndRestart);
        }
        ReduceAction::Emit(StreamElement::Terminate)
    }

    /// Takes in an element from upstream: buffers a value, records a
    /// timestamp or watermark, or notes the end of the input; asks for a
    /// flush when one is due, and otherwise looks for something to emit.
    pub fn on_element(&mut self, e: StreamElement<T>) -> (a: ReduceAction<A>)
        ensures
            old(self)@.flush_due(e) ==> final(self)@ == old(self)@.absorb(e) && a
                == ReduceAction::<A>::Flush,
            !old(self)@.flush_due(e) ==> final(self)@ == old(self)@.absorb(e).poll_state() && a
                == old(self)@.absorb(e).poll_action(),
    {
        let flush = match e {
            StreamElement::Item(x) => {
                self.batch.push(x);
                self.batch.len() >= self.batch_size
            },
            StreamElement::Timestamped(x, ts) => {
                self.timestamp = max_timestamp(self.timestamp, ts);
                self.batch.push(x);
                self.batch.len() >= self.batch_size
            },
            StreamElement::Watermark(ts) => {
                self.max_watermark = max_timestamp(self.max_watermark, ts);
                false
            },
            StreamElement::FlushBatch => !self.batch.is_empty(),
            StreamElement::FlushAndRestart => {
                self.received_end = true;
                self.received_end_iter = true;
                !self.batch.is_empty()
            },
            StreamElement::Terminate => {
                self.received_end = true;
                !self.batch.is_empty()
            },
        };
        if flush {
            ReduceAction::Flush
        } else {
            self.poll()
        }
    }

    /// Readies the batch for the GPU: pads it with `identity` to a whole
    /// number of tiles and returns the tile, the tile size capped at the
    /// batch's length.
    pub fn prepare_flush(&mut self, identity: T) -> (tile: usize)
        requires
            old(self)@.batch.len() > 0,
        ensures
            tile == tile_of(old(self)@.batch.len(), old(self)@.tile_size),
            final(self)@ == (ReduceView {
                batch: old(self)@.batch + Seq::new(
                    padding_needed(old(self)@.batch.len(), tile as nat),
                    |_i: int| identity,
                ),
                ..old(self)@
            }),
            final(self)@.batch.len() % (tile as nat) == 0,
    {
        let len = self.batch.len();
        let mut chunk = if self.tile_size < len {
            self.tile_size
        } else {
            len
        };
        if chunk == 0 {
            chunk = 1;
        }
        self.batch.pad_to_multiple(chunk, identity);
        proof {
            lemma_padding_fills_tiles(len as nat, chunk as nat);
        }
        chunk
    }

    /// Records the value reduced so far, now merged with the flushed
    /// batch, empties the batch and looks for something to emit.
    pub fn flush_done(&mut self, merged: A) -> (a: ReduceAction<A>)
        ensures
            final(self)@ == old(self)@.flushed(merged).poll_state(),
            a == old(self)@.flushed(merged).poll_action(),
    {
        self.batch.clear();
        self.accumulator = Some(merged);
        self.poll()
    }
}

/// Between steps the batch holds fewer values than the batch size: taking
/// in an element either leaves it so or calls for a flush.
pub proof fn lemma_batch_stays_below_size<T, A>(v: ReduceView<T, A>, e: StreamElement<T>)
    requires
        v.batch.len() < v.batch_size,
    ensures
        v.flush_due(e) || v.absorb(e).batch.len() < v.batch_size,
{
}

/// While the input goes on, a value joins the batch and the operator asks
/// for the next element, until the value that fills the batch: then it
/// asks for a flush, after which the batch is empty, the batch's value is
/// in the accumulator, and the operator asks for the next element again.
/// So the batch never reaches its size between elements.
pub proof fn lemma_value_fills_batch<T, A>(v: ReduceView<T, A>, x: T, merged: A)
    requires
        v.batch.len() < v.batch_size,
        !v.received_end,
    ensures
        v.batch.len() + 1 < v.batch_size ==> {
            &&& !v.flush_due(StreamElement::Item(x))
            &&& v.absorb(StreamElement::Item(x)).poll_state() == (ReduceView {
                batch: v.batch.push(x),
                ..v
            })
            &&& v.absorb(StreamElement::Item(x)).poll_action() == ReduceAction::<A>::Pull
        },
        v.batch.len() + 1 == v.batch_size ==> {
            &&& v.flush_due(StreamElement::Item(x))
            &&& v.absorb(StreamElement::Item(x)).batch == v.batch.push(x)
            &&& v.absorb(StreamElement::Item(x)).flushed(merged).poll_state() == (ReduceView {
                batch: Seq::empty(),
                accumulator: Some(merged),
                ..v
            })
            &&& v.absorb(StreamElement::Item(x)).flushed(merged).poll_action()
                == ReduceAction::<A>::Pull
        },
{
}

/// Once the stream has ended and its value and watermark have gone out,
/// the operator answers every later request with the end marker and
/// stays as it is.
pub proof fn lemma_terminated_stays_terminated<T, A>(v: ReduceView<T, A>)
    requires
        v.received_end,
        !v.received_end_iter,
        v.accumulator is None,
        v.max_watermark is None,
    ensures
        v.poll_state() == v,
        v.poll_action() == ReduceAction::<A>::Emit(StreamElement::Terminate),
{
}

/// After a flush the reduced value leaves before the watermark, and the
/// watermark before the end marker.
pub proof fn lemma_end_emission_order<T, A>(v: ReduceView<T, A>, merged: A, wm: Timestamp)
    requires
        v.received_end,
        v.max_watermark == Some(wm),
    ensures
        ({
            let flushed = v.flushed(merged);
            &&& flushed.poll_action() is Emit
            &&& (flushed.poll_action()->Emit_0 is Item || flushed.poll_action()->Emit_0 is Timestamped)
            &&& flushed.poll_state().poll_action() == ReduceAction::<A>::Emit(
                StreamElement::Watermark(wm),
            )
        }),
{
}

/// After padding for a flush the GPU tiling is exact: the tile divides the
/// batch and the tiles cover it.
pub proof fn lemma_flush_tiling_exact(len: nat, tile_size: nat)
    requires
        len > 0,
        tile_size > 0,
    ensures
        ({
            let tile = tile_of(len, tile_size);
            let padded = len + padding_needed(len, tile);
            &&& tile_of(padded, tile) == tile
            &&& padded % (tile as nat) == 0
            &&& (padded / tile) * tile == padded
        }),
{
    let tile = tile_of(len, tile_size);
    lemma_padding_fills_tiles(len, tile);
    let padded = len + padding_needed(len, tile);
    assert((padded / tile) * tile == padded) by (nonlinear_arith)
        requires padded % (tile as nat) == 0, tile > 0;
}

/// The reduced value carries the largest timestamp taken in: after a
/// timestamped value, the recorded timestamp is at least the new one and
/// at least the one recorded before, and is one of the two. Likewise the
/// recorded watermark after a watermark. Nothing else about the
/// timestamps changes.
pub proof fn lemma_absorb_keeps_largest<T, A>(v: ReduceView<T, A>, x: T, ts: Timestamp)
    ensures
        v.absorb(StreamElement::Timestamped(x, ts)).timestamp matches Some(t) && t >= ts && (
        v.timestamp matches Some(c) ==> t >= c) && (t == ts || v.timestamp == Some(t)),
        v.absorb(StreamElement::Timestamped(x, ts)).max_watermark == v.max_watermark,
        v.absorb(StreamElement::Watermark(ts)).max_watermark matches Some(t) && t >= ts && (
        v.max_watermark matches Some(c) ==> t >= c) && (t == ts || v.max_watermark == Some(t)),
        v.absorb(StreamElement::Watermark(ts)).timestamp == v.timestamp,
        v.absorb(StreamElement::Item(x)).timestamp == v.timestamp,
{
}

/// At the end of the input the reduced value goes out with the recorded
/// timestamp (the largest taken in), or as a plain item when none was.
pub proof fn lemma_value_carries_timestamp<T, A>(v: ReduceView<T, A>, acc: A)
    requires
        v.received_end,
        v.accumulator == Some(acc),
    ensures
        v.poll_action() == ReduceAction::Emit(
            match v.timestamp {
                Some(t) => StreamElement::Timestamped(acc, t),
                None => StreamElement::Item(acc),
            },
        ),
{
}

/// The backend choice: an explicit request gets its own runtime whenever
/// that runtime came up, whatever the other runtime's state, and that
/// runtime's own error otherwise; `Auto` takes WGPU when it came up, else
/// CUDA when it came up, else reports that no backend is available. An
/// explicit request never opens the other runtime's device.
pub proof fn lemma_backend_choice(
    wgpu: Result<(), ReduceGpuError>,
    cuda: Result<(), ReduceGpuError>,
    e: ReduceGpuError,
    up: bool,
)
    ensures
        resolved(ReduceGpuBackend::Wgpu, Ok(()), cuda) == Ok::<ResolvedBackend, ReduceGpuError>(
            ResolvedBackend::Wgpu,
        ),
        resolved(ReduceGpuBackend::Wgpu, Err(e), cuda) == Err::<ResolvedBackend, ReduceGpuError>(
            e,
        ),
        resolved(ReduceGpuBackend::Cuda, wgpu, Ok(())) == Ok::<ResolvedBackend, ReduceGpuError>(
            ResolvedBackend::Cuda,
        ),
        resolved(ReduceGpuBackend::Cuda, wgpu, Err(e)) == Err::<ResolvedBackend, ReduceGpuError>(
            e,
        ),
        resolved(ReduceGpuBackend::Auto, Ok(()), cuda) == Ok::<ResolvedBackend, ReduceGpuError>(
            ResolvedBackend::Wgpu,
        ),
        wgpu is Err ==> resolved(ReduceGpuBackend::Auto, wgpu, Ok(())) == Ok::<
            ResolvedBackend,
            ReduceGpuError,
        >(ResolvedBackend::Cuda),
        wgpu is Err && cuda is Err ==> resolved(ReduceGpuBackend::Auto, wgpu, cuda) == Err::<
            ResolvedBackend,
            ReduceGpuError,
        >(ReduceGpuError::NoAvailableBackend),
        !ReduceGpuBackend::Wgpu.consults_cuda(up),
        !ReduceGpuBackend::Cuda.consults_wgpu(),
        ReduceGpuBackend::Wgpu.consults_wgpu(),
        ReduceGpuBackend::Cuda.consults_cuda(up),
        ReduceGpuBackend::Auto.consults_wgpu(),
        ReduceGpuBackend::Auto.consults_cuda(up) == !up,
{
}

} // verus!
