//! Error codes and error values shared by the whole crate.

use crate::frame::StreamId;
use vstd::prelude::*;

verus! {

/// An HTTP/2 error code, as carried by RST_STREAM and GOAWAY.
#[derive(Debug, Clone, Copy, PartialEq, Eq, Structural)]
pub enum Reason {
    NoError,
    ProtocolError,
    InternalError,
    FlowControlError,
    SettingsTimeout,
    StreamClosed,
    FrameSizeError,
    RefusedStream,
    Cancel,
    CompressionError,
    ConnectError,
    EnhanceYourCalm,
    InadequateSecurity,
    Http11Required,
    Other(u32),
}

impl Reason {
    /// The wire code of each reason.
    pub open spec fn spec_code(self) -> u32 {
        match self {
            Reason::NoError => 0,
            Reason::ProtocolError => 1,
            Reason::InternalError => 2,
            Reason::FlowControlError => 3,
            Reason::SettingsTimeout => 4,
            Reason::StreamClosed => 5,
            Reason::FrameSizeError => 6,
            Reason::RefusedStream => 7,
            Reason::Cancel => 8,
            Reason::CompressionError => 9,
            Reason::ConnectError => 10,
            Reason::EnhanceYourCalm => 11,
            Reason::InadequateSecurity => 12,
            Reason::Http11Required => 13,
            Reason::Other(code) => code,
        }
    }

    /// The reason that a wire code stands for; codes without a name are kept
    /// as `Other`.
    pub open spec fn spec_from_code(code: u32) -> Reason {
        if code == 0 {
            Reason::NoError
        } else if code == 1 {
            Reason::ProtocolError
        } else if code == 2 {
            Reason::InternalError
        } else if code == 3 {
            Reason::FlowControlError
        } else if code == 4 {
            Reason::SettingsTimeout
        } else if code == 5 {
            Reason::StreamClosed
        } else if code == 6 {
            Reason::FrameSizeError
        } else if code == 7 {
            Reason::RefusedStream
        } else if code == 8 {
            Reason::Cancel
        } else if code == 9 {
            Reason::CompressionError
        } else if code == 10 {
            Reason::ConnectError
        } else if code == 11 {
            Reason::EnhanceYourCalm
        } else if code == 12 {
            Reason::InadequateSecurity
        } else if code == 13 {
            Reason::Http11Required
        } else {
            Reason::Other(code)
        }
    }

    #[verifier::when_used_as_spec(spec_code)]
    pub fn code(self) -> (code: u32)
        ensures
            code == self.spec_code(),
    {
        match self {
            Reason::NoError => 0,
            Reason::ProtocolError => 1,
            Reason::InternalError => 2,
            Reason::FlowControlError => 3,
            Reason::SettingsTimeout => 4,
            Reason::StreamClosed => 5,
            Reason::FrameSizeError => 6,
            Reason::RefusedStream => 7,
            Reason::Cancel => 8,
            Reason::CompressionError => 9,
            Reason::ConnectError => 10,
            Reason::EnhanceYourCalm => 11,
            Reason::InadequateSecurity => 12,
            Reason::Http11Required => 13,
            Reason::Other(code) => code,
        }
    }

    #[verifier::when_used_as_spec(spec_from_code)]
    pub fn from_code(code: u32) -> (reason: Reason)
        ensures
            reason == Reason::spec_from_code(code),
    {
        match code {
            0 => Reason::NoError,
            1 => Reason::ProtocolError,
            2 => Reason::InternalError,
            3 => Reason::FlowControlError,
            4 => Reason::SettingsTimeout,
            5 => Reason::StreamClosed,
            6 => Reason::FrameSizeError,
            7 => Reason::RefusedStream,
            8 => Reason::Cancel,
            9 => Reason::CompressionError,
            10 => Reason::ConnectError,
            11 => Reason::EnhanceYourCalm,
            12 => Reason::InadequateSecurity,
            13 => Reason::Http11Required,
            _ => Reason::Other(code),
        }
    }

    /// Every wire code survives the trip through `Reason` and back.
    pub proof fn lemma_code_round_trip(code: u32)
        ensures
            Reason::spec_from_code(code).spec_code() == code,
    {
    }
}

/// Misuse of the sending interface by the local caller. No frame is emitted
/// for any of these.
#[derive(Debug, Clone, Copy, PartialEq, Eq, Structural)]
pub enum User {
    /// The stream is closed.
    InactiveStreamId,
    /// The frame is not allowed in the stream's current state, or the peer's
    /// role forbids the operation.
    UnexpectedFrameType,
    /// The payload does not fit into the flow-control accounting.
    PayloadTooBig,
    /// The peer's limit on concurrently open streams is reached.
    Rejected,
}

/// What a sending or settings operation can fail with.
#[derive(Debug, Clone, Copy, PartialEq, Eq, Structural)]
pub enum ConnectionError {
    /// The peer violated the protocol; the connection ends with GOAWAY.
    Proto(Reason),
    /// The local caller misused the interface.
    User(User),
}

/// What decoding a received frame can fail with.
#[derive(Debug, Clone, Copy, PartialEq, Eq, Structural)]
pub enum ProtoError {
    /// The connection must be closed with GOAWAY carrying the reason.
    Connection(Reason),
    /// Only the one stream is reset with RST_STREAM; the connection goes on.
    Stream { id: StreamId, reason: Reason },
}

} // verus!
