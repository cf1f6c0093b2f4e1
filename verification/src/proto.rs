//! The protocol engine: flow control, stream states, the stream store and
//! the sending side.

pub mod flow_control;
pub mod framed_read;
pub mod state;
pub mod streams;

pub use self::flow_control::{FlowControl, WindowSize, MAX_WINDOW_SIZE};
pub use self::framed_read::{Decoded, Decompressed, FramedRead};
pub use self::state::State;
pub use self::streams::{Config, Peer};

use vstd::prelude::*;

verus! {

/// The outcome of polling: the value, or the notice that it is not there
/// yet and that the task will be woken when it may be.
#[derive(Debug, PartialEq, Eq, Structural)]
pub enum Async<T> {
    Ready(T),
    NotReady,
}

} // verus!
