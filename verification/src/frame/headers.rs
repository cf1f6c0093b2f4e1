//! HEADERS and PUSH_PROMISE frames, and the stream dependency that HEADERS
//! and PRIORITY carry.

use crate::frame::head::{spec_u32_be, unpack_u32, Head, StreamId};
use crate::frame::Error;
use vstd::prelude::*;
use vstd::slice::{slice_subrange, slice_to_vec};

verus! {

/// Flag bit: this frame ends the stream.
pub const END_STREAM: u8 = 0x1;

/// Flag bit: the header block ends with this frame.
pub const END_HEADERS: u8 = 0x4;

/// Flag bit: the payload starts with a padding length and ends with padding.
pub const PADDED: u8 = 0x8;

/// Flag bit: the payload carries a stream dependency.
pub const PRIORITY: u8 = 0x20;

/// One decoded header field.
#[derive(Debug)]
pub struct HeaderField {
    pub name: Vec<u8>,
    pub value: Vec<u8>,
}

/// What a stream says it depends on.
#[derive(Debug, Clone, Copy, PartialEq, Eq, Structural)]
pub struct StreamDependency {
    pub dependency_id: StreamId,
    pub weight: u8,
    pub is_exclusive: bool,
}

impl StreamDependency {
    /// The dependency held in the five bytes of `src` that start at `at`.
    pub open spec fn spec_load(src: Seq<u8>, at: int) -> StreamDependency {
        let raw = spec_u32_be(src[at], src[at + 1], src[at + 2], src[at + 3]);
        StreamDependency {
            dependency_id: StreamId(raw % 0x8000_0000),
            weight: src[at + 4],
            is_exclusive: raw >= 0x8000_0000,
        }
    }

    pub fn new(dependency_id: StreamId, weight: u8, is_exclusive: bool) -> (dep: StreamDependency)
        ensures
            dep == (StreamDependency { dependency_id, weight, is_exclusive }),
    {
        StreamDependency { dependency_id, weight, is_exclusive }
    }

    /// Reads a dependency: the exclusive bit, the 31-bit identifier and the
    /// weight.
    pub fn load(src: &[u8], at: usize) -> (dep: StreamDependency)
        requires
            at + 5 <= src@.len(),
        ensures
            dep == StreamDependency::spec_load(src@, at as int),
    {
        let len = src.len();
        assert(at + 4 < len);
        let raw = unpack_u32(src, at);
        assert(raw & 0x7fff_ffff == raw % 0x8000_0000) by (bit_vector);
        assert((raw & 0x8000_0000 == 0x8000_0000) == (raw >= 0x8000_0000)) by (bit_vector);
        StreamDependency {
            dependency_id: StreamId(raw & 0x7fff_ffff),
            weight: src[at + 4],
            is_exclusive: raw & 0x8000_0000 == 0x8000_0000,
        }
    }

    pub fn dependency_id(&self) -> (id: StreamId)
        ensures
            id == self.dependency_id,
    {
        self.dependency_id
    }
}

/// A HEADERS frame. After `load` the header list is still empty: the header
/// block has to be decompressed first, which is not this crate's part.
#[derive(Debug)]
pub struct Headers {
    pub stream_id: StreamId,
    pub stream_dep: Option<StreamDependency>,
    pub fields: Vec<HeaderField>,
    pub end_stream: bool,
    pub end_headers: bool,
}

impl Headers {
    /// Number of payload bytes before the header block.
    pub open spec fn spec_prefix_len(flag: u8) -> int {
        (if flag & PADDED == PADDED {
            1int
        } else {
            0int
        }) + (if flag & PRIORITY == PRIORITY {
            5int
        } else {
            0int
        })
    }

    /// Number of padding bytes after the header block.
    pub open spec fn spec_padding(flag: u8, payload: Seq<u8>) -> int {
        if flag & PADDED == PADDED {
            payload[0] as int
        } else {
            0
        }
    }

    /// The dependency that the payload carries, if the flags announce one.
    pub open spec fn spec_dependency(flag: u8, payload: Seq<u8>) -> Option<StreamDependency> {
        if flag & PRIORITY == PRIORITY {
            Some(
                StreamDependency::spec_load(
                    payload,
                    if flag & PADDED == PADDED {
                        1
                    } else {
                        0
                    },
                ),
            )
        } else {
            None
        }
    }

    /// Why a HEADERS frame with this head and payload is refused, if it is.
    pub open spec fn spec_load_error(head: Head, payload: Seq<u8>) -> Option<Error> {
        if head.stream_id.0 == 0 {
            Some(Error::InvalidStreamId)
        } else if head.flag & PADDED == PADDED && payload.len() == 0 {
            Some(Error::TooMuchPadding)
        } else if payload.len() < Self::spec_prefix_len(head.flag) {
            Some(Error::InvalidPayloadLength)
        } else if head.flag & PRIORITY == PRIORITY && Self::spec_dependency(
            head.flag,
            payload,
        ).unwrap().dependency_id == head.stream_id {
            Some(Error::InvalidDependencyId)
        } else if Self::spec_padding(head.flag, payload) > payload.len() - Self::spec_prefix_len(
            head.flag,
        ) {
            Some(Error::TooMuchPadding)
        } else {
            None
        }
    }

    /// The header block fragment of an accepted HEADERS frame.
    pub open spec fn spec_block(head: Head, payload: Seq<u8>) -> Seq<u8> {
        payload.subrange(
            Self::spec_prefix_len(head.flag),
            payload.len() - Self::spec_padding(head.flag, payload),
        )
    }

    /// A frame that opens or continues a stream with a complete header
    /// list.
    pub fn new(stream_id: StreamId, fields: Vec<HeaderField>) -> (frame: Headers)
        ensures
            frame == (Headers {
                stream_id,
                stream_dep: None::<StreamDependency>,
                fields,
                end_stream: false,
                end_headers: true,
            }),
    {
        Headers { stream_id, stream_dep: None, fields, end_stream: false, end_headers: true }
    }

    /// A frame of trailers: it ends the stream.
    pub fn trailers(stream_id: StreamId, fields: Vec<HeaderField>) -> (frame: Headers)
        ensures
            frame == (Headers {
                stream_id,
                stream_dep: None::<StreamDependency>,
                fields,
                end_stream: true,
                end_headers: true,
            }),
    {
        Headers { stream_id, stream_dep: None, fields, end_stream: true, end_headers: true }
    }

    /// Decodes a HEADERS frame up to its header block, which is returned
    /// still compressed.
    pub fn load(head: Head, payload: &[u8]) -> (res: Result<(Headers, Vec<u8>), Error>)
        ensures
            match res {
                Ok((frame, block)) => {
                    &&& Self::spec_load_error(head, payload@) is None
                    &&& frame.stream_id == head.stream_id
                    &&& frame.stream_dep == Self::spec_dependency(head.flag, payload@)
                    &&& frame.fields@.len() == 0
                    &&& frame.end_stream == (head.flag & END_STREAM == END_STREAM)
                    &&& frame.end_headers == (head.flag & END_HEADERS == END_HEADERS)
                    &&& block@ == Self::spec_block(head, payload@)
                },
                Err(e) => Self::spec_load_error(head, payload@) == Some(e),
            },
    {
        if head.stream_id.0 == 0 {
            return Err(Error::InvalidStreamId);
        }
        let len = payload.len();
        let mut at: usize = 0;
        let mut pad: usize = 0;
        if head.flag & PADDED == PADDED {
            if len == 0 {
                return Err(Error::TooMuchPadding);
            }
            pad = payload[0] as usize;
            at = 1;
        }
        let mut stream_dep: Option<StreamDependency> = None;
        if head.flag & PRIORITY == PRIORITY {
            if len - at < 5 {
                return Err(Error::InvalidPayloadLength);
            }
            let dep = StreamDependency::load(payload, at);
            if dep.dependency_id.0 == head.stream_id.0 {
                return Err(Error::InvalidDependencyId);
            }
            stream_dep = Some(dep);
            at = at + 5;
        }
        if pad > len - at {
            return Err(Error::TooMuchPadding);
        }
        let block = slice_to_vec(slice_subrange(payload, at, len - pad));
        let frame = Headers {
            stream_id: head.stream_id,
            stream_dep,
            fields: Vec::new(),
            end_stream: head.flag & END_STREAM == END_STREAM,
            end_headers: head.flag & END_HEADERS == END_HEADERS,
        };
        Ok((frame, block))
    }

    pub fn stream_id(&self) -> (id: StreamId)
        ensures
            id == self.stream_id,
    {
        self.stream_id
    }

    pub fn is_end_headers(&self) -> (r: bool)
        ensures
            r == self.end_headers,
    {
        self.end_headers
    }

    pub fn is_end_stream(&self) -> (r: bool)
        ensures
            r == self.end_stream,
    {
        self.end_stream
    }

    pub fn set_end_stream(&mut self)
        ensures
            *final(self) == (Headers { end_stream: true, ..*old(self) }),
    {
        self.end_stream = true;
    }

    /// Takes the decoded header list.
    pub fn set_fields(&mut self, fields: Vec<HeaderField>)
        ensures
            *final(self) == (Headers { fields, ..*old(self) }),
    {
        self.fields = fields;
    }
}

/// A PUSH_PROMISE frame.
#[derive(Debug, Clone, Copy, PartialEq, Eq, Structural)]
pub struct PushPromise {
    pub stream_id: StreamId,
    pub promised_id: StreamId,
    pub flags: u8,
}

impl PushPromise {
    /// What a PUSH_PROMISE frame with this head and payload decodes to.
    pub open spec fn spec_load(head: Head, payload: Seq<u8>) -> Result<PushPromise, Error> {
        if payload.len() < 4 {
            Err(Error::BadFrameSize)
        } else {
            Ok(
                PushPromise {
                    stream_id: head.stream_id,
                    promised_id: StreamId::spec_parse(
                        payload[0],
                        payload[1],
                        payload[2],
                        payload[3],
                    ),
                    flags: head.flag,
                },
            )
        }
    }

    /// Decodes a PUSH_PROMISE frame up to the promised stream identifier.
    pub fn load(head: Head, payload: &[u8]) -> (res: Result<PushPromise, Error>)
        ensures
            res == Self::spec_load(head, payload@),
    {
        if payload.len() < 4 {
            return Err(Error::BadFrameSize);
        }
        Ok(
            PushPromise {
                stream_id: head.stream_id,
                promised_id: StreamId::parse(payload, 0),
                flags: head.flag,
            },
        )
    }

    pub fn stream_id(&self) -> (id: StreamId)
        ensures
            id == self.stream_id,
    {
        self.stream_id
    }

    pub fn promised_id(&self) -> (id: StreamId)
        ensures
            id == self.promised_id,
    {
        self.promised_id
    }
}

} // verus!
