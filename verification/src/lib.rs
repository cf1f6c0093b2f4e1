//! Stream multiplexing core of an HTTP/2 endpoint: frame decoding with
//! header-block reassembly, the stream store with its intrusive scheduling
//! queues, two-level send flow control and the send state machine.
//!
//! Every item in this crate is checked by Verus. The few places where the
//! code relies on `slab` and on `futures` tasks are marked in
//! [`proto::streams::store`] and [`proto::streams::stream`].

pub mod error;
pub mod frame;
pub mod proto;
