//! Streams: their records, the store that holds them, and the sending side.

pub mod buffer;
pub mod model;
pub mod prioritize;
pub mod prioritized;
pub mod send;
pub mod store;
pub mod stream;

pub use self::buffer::{Buffer, Deque};
pub use self::model::Model;
pub use self::prioritize::{DrainAction, DrainEvent, Prioritize};
pub use self::prioritized::Prioritized;
pub use self::send::Send;
pub use self::store::{Entry, Key, Next, OccupiedEntry, Queue, Store, VacantEntry};
pub use self::stream::{
    ContentLength, NextAccept, NextSend, NextSendCapacity, NextWindowUpdate, QueueId, Stream,
};

use crate::proto::flow_control::WindowSize;
use vstd::prelude::*;

verus! {

/// Which end of the connection this is.
#[derive(Debug, Clone, Copy, PartialEq, Eq, Structural)]
pub enum Peer {
    Client,
    Server,
}

impl Peer {
    pub open spec fn spec_is_server(&self) -> bool {
        *self is Server
    }

    #[verifier::when_used_as_spec(spec_is_server)]
    pub fn is_server(&self) -> (r: bool)
        ensures
            r == (*self is Server),
    {
        match *self {
            Peer::Server => true,
            Peer::Client => false,
        }
    }
}

/// What the engine is set up with.
#[derive(Debug, Clone, Copy)]
pub struct Config {
    /// Which end of the connection this is.
    pub peer: Peer,
    /// Initial size of the windows that govern what the peer sends.
    pub init_remote_window_sz: WindowSize,
    /// Initial size of the windows that govern what is sent to the peer.
    pub init_local_window_sz: WindowSize,
    /// How many streams this end may have open at once, if limited.
    pub max_local_initiated: Option<usize>,
    /// How many streams the peer may have open at once, if limited.
    pub max_remote_initiated: Option<usize>,
}

} // verus!
