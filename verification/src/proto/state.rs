//! The protocol state of one stream, as far as sending drives it.

use crate::error::{ConnectionError, Reason, User};
use vstd::prelude::*;

verus! {

/// The state of a stream.
#[derive(Debug, Clone, Copy, PartialEq, Eq, Structural)]
pub enum State {
    Idle,
    ReservedLocal,
    ReservedRemote,
    Open,
    HalfClosedLocal,
    HalfClosedRemote,
    Closed,
    Reset(Reason),
}

impl State {
    /// The state after sending HEADERS, for the states that allow it.
    pub open spec fn spec_send_open(self, end_stream: bool) -> Option<State> {
        match self {
            State::Idle => Some(
                if end_stream {
                    State::HalfClosedLocal
                } else {
                    State::Open
                },
            ),
            State::ReservedLocal => Some(State::HalfClosedRemote),
            _ => None,
        }
    }

    /// The state after sending END_STREAM, for the states that allow it.
    pub open spec fn spec_send_close(self) -> Option<State> {
        match self {
            State::Open => Some(State::HalfClosedLocal),
            State::HalfClosedRemote => Some(State::Closed),
            _ => None,
        }
    }

    /// The state after a reset: a stream that is already reset keeps its
    /// first reason.
    pub open spec fn spec_set_reset(self, reason: Reason) -> State {
        match self {
            State::Reset(_) => self,
            _ => State::Reset(reason),
        }
    }

    pub open spec fn spec_is_send_streaming(&self) -> bool {
        *self is Open || *self is HalfClosedRemote
    }

    pub open spec fn spec_is_closed(&self) -> bool {
        *self is Closed || *self is Reset
    }

    pub open spec fn spec_is_reset(&self) -> bool {
        *self is Reset
    }

    /// A new stream is idle.
    pub fn new() -> (state: State)
        ensures
            state == State::Idle,
    {
        State::Idle
    }

    /// Opens the sending half with a HEADERS frame. Fails with
    /// `UnexpectedFrameType`, leaving the state as it was, from every state
    /// but `Idle` and `ReservedLocal`.
    pub fn send_open(&mut self, end_stream: bool) -> (res: Result<(), ConnectionError>)
        ensures
            match old(self).spec_send_open(end_stream) {
                Some(next) => res is Ok && *final(self) == next,
                None => res == Err::<(), ConnectionError>(
                    ConnectionError::User(User::UnexpectedFrameType),
                ) && *final(self) == *old(self),
            },
    {
        match *self {
            State::Idle => {
                *self = if end_stream {
                    State::HalfClosedLocal
                } else {
                    State::Open
                };
                Ok(())
            },
            State::ReservedLocal => {
                *self = State::HalfClosedRemote;
                Ok(())
            },
            _ => Err(ConnectionError::User(User::UnexpectedFrameType)),
        }
    }

    /// Closes the sending half. Fails with a protocol error, leaving the
    /// state as it was, from every state but `Open` and `HalfClosedRemote`.
    pub fn send_close(&mut self) -> (res: Result<(), ConnectionError>)
        ensures
            match old(self).spec_send_close() {
                Some(next) => res is Ok && *final(self) == next,
                None => res == Err::<(), ConnectionError>(
                    ConnectionError::Proto(Reason::ProtocolError),
                ) && *final(self) == *old(self),
            },
    {
        match *self {
            State::Open => {
                *self = State::HalfClosedLocal;
                Ok(())
            },
            State::HalfClosedRemote => {
                *self = State::Closed;
                Ok(())
            },
            _ => Err(ConnectionError::Proto(Reason::ProtocolError)),
        }
    }

    /// Resets the stream.
    pub fn set_reset(&mut self, reason: Reason)
        ensures
            *final(self) == old(self).spec_set_reset(reason),
            final(self).spec_is_reset(),
    {
        match *self {
            State::Reset(_) => {},
            _ => {
                *self = State::Reset(reason);
            },
        }
    }

    /// True while DATA and trailers may still be sent.
    #[verifier::when_used_as_spec(spec_is_send_streaming)]
    pub fn is_send_streaming(&self) -> (r: bool)
        ensures
            r == self.spec_is_send_streaming(),
    {
        match *self {
            State::Open => true,
            State::HalfClosedRemote => true,
            _ => false,
        }
    }

    #[verifier::when_used_as_spec(spec_is_closed)]
    pub fn is_closed(&self) -> (r: bool)
        ensures
            r == self.spec_is_closed(),
    {
        match *self {
            State::Closed => true,
            State::Reset(_) => true,
            _ => false,
        }
    }

    #[verifier::when_used_as_spec(spec_is_reset)]
    pub fn is_reset(&self) -> (r: bool)
        ensures
            r == self.spec_is_reset(),
    {
        match *self {
            State::Reset(_) => true,
            _ => false,
        }
    }
}

} // verus!
