//! The frame head: type, flags and stream identifier.

use vstd::prelude::*;

verus! {

/// Length of the head that precedes every frame payload.
pub const HEADER_LEN: usize = 9;

/// Largest stream identifier: the field is 31 bits wide.
pub const MAX_STREAM_ID: u32 = 0x7fff_ffff;

/// Identifier of a stream within one connection. Identifier zero names the
/// connection itself.
#[derive(Debug, Clone, Copy, PartialEq, Eq, Structural)]
pub struct StreamId(pub u32);

/// Big-endian value of four bytes.
pub open spec fn spec_u32_be(b0: u8, b1: u8, b2: u8, b3: u8) -> u32 {
    (b0 * 0x100_0000 + b1 * 0x1_0000 + b2 * 0x100 + b3) as u32
}

/// Reads a big-endian `u32` at `at`.
pub fn unpack_u32(buf: &[u8], at: usize) -> (v: u32)
    requires
        at + 4 <= buf@.len(),
    ensures
        v == spec_u32_be(buf@[at as int], buf@[at + 1], buf@[at + 2], buf@[at + 3]),
{
    let b0 = buf[at];
    let b1 = buf[at + 1];
    let b2 = buf[at + 2];
    let b3 = buf[at + 3];
    assert(((b0 as u32) << 24) | ((b1 as u32) << 16) | ((b2 as u32) << 8) | (b3 as u32) == (b0
        as u32) * 0x100_0000 + (b1 as u32) * 0x1_0000 + (b2 as u32) * 0x100 + (b3 as u32))
        by (bit_vector);
    ((b0 as u32) << 24) | ((b1 as u32) << 16) | ((b2 as u32) << 8) | (b3 as u32)
}

impl StreamId {
    /// The identifier held in four bytes: the reserved top bit is dropped.
    pub open spec fn spec_parse(b0: u8, b1: u8, b2: u8, b3: u8) -> StreamId {
        StreamId(spec_u32_be(b0, b1, b2, b3) % 0x8000_0000)
    }

    pub open spec fn spec_is_zero(&self) -> bool {
        self.0 == 0
    }

    /// Reads the identifier at `at`, dropping the reserved bit.
    pub fn parse(buf: &[u8], at: usize) -> (id: StreamId)
        requires
            at + 4 <= buf@.len(),
        ensures
            id == StreamId::spec_parse(buf@[at as int], buf@[at + 1], buf@[at + 2], buf@[at + 3]),
            id.0 <= MAX_STREAM_ID,
    {
        let raw = unpack_u32(buf, at);
        assert(raw & 0x7fff_ffff == raw % 0x8000_0000) by (bit_vector);
        StreamId(raw & 0x7fff_ffff)
    }

    pub fn zero() -> (id: StreamId)
        ensures
            id.0 == 0,
    {
        StreamId(0)
    }

    #[verifier::when_used_as_spec(spec_is_zero)]
    pub fn is_zero(&self) -> (r: bool)
        ensures
            r == (self.0 == 0),
    {
        self.0 == 0
    }

    pub fn as_u32(&self) -> (v: u32)
        ensures
            v == self.0,
    {
        self.0
    }

    /// Moves on to the next identifier of the same initiator.
    pub fn increment(&mut self)
        requires
            old(self).0 + 2 <= u32::MAX,
        ensures
            final(self).0 == old(self).0 + 2,
    {
        self.0 = self.0 + 2;
    }
}

/// The type of a frame, from the fourth byte of its head.
#[derive(Debug, Clone, Copy, PartialEq, Eq, Structural)]
pub enum Kind {
    Data,
    Headers,
    Priority,
    Reset,
    Settings,
    PushPromise,
    Ping,
    GoAway,
    WindowUpdate,
    Continuation,
    Unknown,
}

impl Kind {
    pub open spec fn spec_new(byte: u8) -> Kind {
        if byte == 0 {
            Kind::Data
        } else if byte == 1 {
            Kind::Headers
        } else if byte == 2 {
            Kind::Priority
        } else if byte == 3 {
            Kind::Reset
        } else if byte == 4 {
            Kind::Settings
        } else if byte == 5 {
            Kind::PushPromise
        } else if byte == 6 {
            Kind::Ping
        } else if byte == 7 {
            Kind::GoAway
        } else if byte == 8 {
            Kind::WindowUpdate
        } else if byte == 9 {
            Kind::Continuation
        } else {
            Kind::Unknown
        }
    }

    #[verifier::when_used_as_spec(spec_new)]
    pub fn new(byte: u8) -> (kind: Kind)
        ensures
            kind == Kind::spec_new(byte),
    {
        match byte {
            0 => Kind::Data,
            1 => Kind::Headers,
            2 => Kind::Priority,
            3 => Kind::Reset,
            4 => Kind::Settings,
            5 => Kind::PushPromise,
            6 => Kind::Ping,
            7 => Kind::GoAway,
            8 => Kind::WindowUpdate,
            9 => Kind::Continuation,
            _ => Kind::Unknown,
        }
    }
}

/// The head of a frame without its length field, which the byte source has
/// already used to cut the frame out of the stream.
#[derive(Debug, Clone, Copy, PartialEq, Eq, Structural)]
pub struct Head {
    pub kind: Kind,
    pub flag: u8,
    pub stream_id: StreamId,
}

impl Head {
    /// The head that the first nine bytes of `bytes` encode.
    pub open spec fn spec_parse(bytes: Seq<u8>) -> Head
        recommends
            bytes.len() >= HEADER_LEN,
    {
        Head {
            kind: Kind::spec_new(bytes[3]),
            flag: bytes[4],
            stream_id: StreamId::spec_parse(bytes[5], bytes[6], bytes[7], bytes[8]),
        }
    }

    /// The payload length that the first three bytes announce.
    pub open spec fn spec_payload_len(bytes: Seq<u8>) -> nat
        recommends
            bytes.len() >= HEADER_LEN,
    {
        (bytes[0] as nat) * 65536 + (bytes[1] as nat) * 256 + (bytes[2] as nat)
    }

    pub fn new(kind: Kind, flag: u8, stream_id: StreamId) -> (head: Head)
        ensures
            head == (Head { kind, flag, stream_id }),
    {
        Head { kind, flag, stream_id }
    }

    /// Parses the head of a frame.
    pub fn parse(header: &[u8]) -> (head: Head)
        requires
            header@.len() >= HEADER_LEN,
        ensures
            head == Head::spec_parse(header@),
            head.stream_id.0 <= MAX_STREAM_ID,
    {
        Head {
            kind: Kind::new(header[3]),
            flag: header[4],
            stream_id: StreamId::parse(header, 5),
        }
    }

    /// Reads the 24-bit length field of a frame head.
    pub fn payload_len(header: &[u8]) -> (len: usize)
        requires
            header@.len() >= HEADER_LEN,
        ensures
            len == Head::spec_payload_len(header@),
    {
        (header[0] as usize) * 65536 + (header[1] as usize) * 256 + (header[2] as usize)
    }

    pub fn kind(&self) -> (kind: Kind)
        ensures
            kind == self.kind,
    {
        self.kind
    }

    pub fn flag(&self) -> (flag: u8)
        ensures
            flag == self.flag,
    {
        self.flag
    }

    pub fn stream_id(&self) -> (id: StreamId)
        ensures
            id == self.stream_id,
    {
        self.stream_id
    }
}

} // verus!
