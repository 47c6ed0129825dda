//! Stream elements exchanged between operators, and the GPU operators.
pub mod gpu;

use vstd::prelude::*;

verus! {

/// Event-time timestamp carried by stream elements.
pub type Timestamp = i64;

/// An element travelling along a stream between two operators.
#[derive(Clone, Debug, PartialEq)]
pub enum StreamElement<T> {
    /// A plain data item.
    Item(T),
    /// A data item with its event-time timestamp.
    Timestamped(T, Timestamp),
    /// A watermark: no later item will carry a smaller timestamp.
    Watermark(Timestamp),
    /// Request to process every buffered item now.
    FlushBatch,
    /// End of an iteration: flush, then restart.
    FlushAndRestart,
    /// End of the stream.
    Terminate,
}

} // verus!
