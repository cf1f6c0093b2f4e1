//! The short control frames: PRIORITY, RST_STREAM, PING, GOAWAY and
//! WINDOW_UPDATE.

use crate::error::Reason;
use crate::frame::head::{spec_u32_be, unpack_u32, Head, StreamId};
use crate::frame::headers::StreamDependency;
use crate::frame::Error;
use vstd::prelude::*;

verus! {

/// Flag bit of PING and SETTINGS: this frame acknowledges one of the peer's.
pub const ACK: u8 = 0x1;

/// A PRIORITY frame.
#[derive(Debug, Clone, Copy, PartialEq, Eq, Structural)]
pub struct Priority {
    pub stream_id: StreamId,
    pub dependency: StreamDependency,
}

impl Priority {
    /// What a PRIORITY frame with this head and payload decodes to. A
    /// stream that names itself as its dependency is refused.
    pub open spec fn spec_load(head: Head, payload: Seq<u8>) -> Result<Priority, Error> {
        if payload.len() != 5 {
            Err(Error::BadFrameSize)
        } else if StreamDependency::spec_load(payload, 0).dependency_id == head.stream_id {
            Err(Error::InvalidDependencyId)
        } else {
            Ok(
                Priority {
                    stream_id: head.stream_id,
                    dependency: StreamDependency::spec_load(payload, 0),
                },
            )
        }
    }

    pub fn load(head: Head, payload: &[u8]) -> (res: Result<Priority, Error>)
        ensures
            res == Self::spec_load(head, payload@),
    {
        if payload.len() != 5 {
            return Err(Error::BadFrameSize);
        }
        let dependency = StreamDependency::load(payload, 0);
        if dependency.dependency_id.0 == head.stream_id.0 {
            return Err(Error::InvalidDependencyId);
        }
        Ok(Priority { stream_id: head.stream_id, dependency })
    }
}

/// A RST_STREAM frame.
#[derive(Debug, Clone, Copy, PartialEq, Eq, Structural)]
pub struct Reset {
    pub stream_id: StreamId,
    pub error_code: Reason,
}

impl Reset {
    /// What a RST_STREAM frame with this head and payload decodes to.
    pub open spec fn spec_load(head: Head, payload: Seq<u8>) -> Result<Reset, Error> {
        if payload.len() != 4 {
            Err(Error::InvalidPayloadLength)
        } else {
            Ok(
                Reset {
                    stream_id: head.stream_id,
                    error_code: Reason::spec_from_code(
                        spec_u32_be(payload[0], payload[1], payload[2], payload[3]),
                    ),
                },
            )
        }
    }

    pub fn new(stream_id: StreamId, error_code: Reason) -> (frame: Reset)
        ensures
            frame == (Reset { stream_id, error_code }),
    {
        Reset { stream_id, error_code }
    }

    pub fn load(head: Head, payload: &[u8]) -> (res: Result<Reset, Error>)
        ensures
            res == Self::spec_load(head, payload@),
    {
        if payload.len() != 4 {
            return Err(Error::InvalidPayloadLength);
        }
        let code = unpack_u32(payload, 0);
        Ok(Reset { stream_id: head.stream_id, error_code: Reason::from_code(code) })
    }

    pub fn stream_id(&self) -> (id: StreamId)
        ensures
            id == self.stream_id,
    {
        self.stream_id
    }

    pub fn reason(&self) -> (reason: Reason)
        ensures
            reason == self.error_code,
    {
        self.error_code
    }
}

/// A PING frame.
#[derive(Debug, Clone, Copy)]
pub struct Ping {
    pub ack: bool,
    pub payload: [u8; 8],
}

impl Ping {
    /// Why a PING frame with this head and payload is refused, if it is.
    pub open spec fn spec_load_error(head: Head, payload: Seq<u8>) -> Option<Error> {
        if head.stream_id.0 != 0 {
            Some(Error::InvalidStreamId)
        } else if payload.len() != 8 {
            Some(Error::BadFrameSize)
        } else {
            None
        }
    }

    pub fn load(head: Head, payload: &[u8]) -> (res: Result<Ping, Error>)
        ensures
            match res {
                Ok(frame) => {
                    &&& Self::spec_load_error(head, payload@) is None
                    &&& frame.ack == (head.flag & ACK == ACK)
                    &&& frame.payload@ == payload@
                },
                Err(e) => Self::spec_load_error(head, payload@) == Some(e),
            },
    {
        if head.stream_id.0 != 0 {
            return Err(Error::InvalidStreamId);
        }
        if payload.len() != 8 {
            return Err(Error::BadFrameSize);
        }
        let bytes: [u8; 8] = [
            payload[0],
            payload[1],
            payload[2],
            payload[3],
            payload[4],
            payload[5],
            payload[6],
            payload[7],
        ];
        assert(bytes@ =~= payload@);
        Ok(Ping { ack: head.flag & ACK == ACK, payload: bytes })
    }

    pub fn is_ack(&self) -> (r: bool)
        ensures
            r == self.ack,
    {
        self.ack
    }
}

/// A GOAWAY frame, without its debug data.
#[derive(Debug, Clone, Copy, PartialEq, Eq, Structural)]
pub struct GoAway {
    pub last_stream_id: StreamId,
    pub error_code: Reason,
}

impl GoAway {
    /// What a GOAWAY payload decodes to.
    pub open spec fn spec_load(payload: Seq<u8>) -> Result<GoAway, Error> {
        if payload.len() < 8 {
            Err(Error::BadFrameSize)
        } else {
            Ok(
                GoAway {
                    last_stream_id: StreamId::spec_parse(
                        payload[0],
                        payload[1],
                        payload[2],
                        payload[3],
                    ),
                    error_code: Reason::spec_from_code(
                        spec_u32_be(payload[4], payload[5], payload[6], payload[7]),
                    ),
                },
            )
        }
    }

    pub fn new(last_stream_id: StreamId, error_code: Reason) -> (frame: GoAway)
        ensures
            frame == (GoAway { last_stream_id, error_code }),
    {
        GoAway { last_stream_id, error_code }
    }

    pub fn load(payload: &[u8]) -> (res: Result<GoAway, Error>)
        ensures
            res == Self::spec_load(payload@),
    {
        if payload.len() < 8 {
            return Err(Error::BadFrameSize);
        }
        let last_stream_id = StreamId::parse(payload, 0);
        let code = unpack_u32(payload, 4);
        Ok(GoAway { last_stream_id, error_code: Reason::from_code(code) })
    }

    pub fn reason(&self) -> (reason: Reason)
        ensures
            reason == self.error_code,
    {
        self.error_code
    }
}

/// A WINDOW_UPDATE frame.
#[derive(Debug, Clone, Copy, PartialEq, Eq, Structural)]
pub struct WindowUpdate {
    pub stream_id: StreamId,
    pub size_increment: u32,
}

impl WindowUpdate {
    /// What a WINDOW_UPDATE frame with this head and payload decodes to:
    /// the increment is the payload's low 31 bits.
    pub open spec fn spec_load(head: Head, payload: Seq<u8>) -> Result<WindowUpdate, Error> {
        if payload.len() != 4 {
            Err(Error::BadFrameSize)
        } else {
            Ok(
                WindowUpdate {
                    stream_id: head.stream_id,
                    size_increment: spec_u32_be(payload[0], payload[1], payload[2], payload[3])
                        % 0x8000_0000,
                },
            )
        }
    }

    pub fn new(stream_id: StreamId, size_increment: u32) -> (frame: WindowUpdate)
        ensures
            frame == (WindowUpdate { stream_id, size_increment }),
    {
        WindowUpdate { stream_id, size_increment }
    }

    pub fn load(head: Head, payload: &[u8]) -> (res: Result<WindowUpdate, Error>)
        ensures
            res == Self::spec_load(head, payload@),
            res is Ok ==> res.unwrap().size_increment <= 0x7fff_ffff,
    {
        if payload.len() != 4 {
            return Err(Error::BadFrameSize);
        }
        let raw = unpack_u32(payload, 0);
        assert(raw & 0x7fff_ffff == raw % 0x8000_0000) by (bit_vector);
        Ok(WindowUpdate { stream_id: head.stream_id, size_increment: raw & 0x7fff_ffff })
    }

    pub fn stream_id(&self) -> (id: StreamId)
        ensures
            id == self.stream_id,
    {
        self.stream_id
    }

    pub fn size_increment(&self) -> (inc: u32)
        ensures
            inc == self.size_increment,
    {
        self.size_increment
    }
}

} // verus!
