//! DATA frames.

use crate::frame::head::{Head, StreamId};
use crate::frame::payload::Payload;
use crate::frame::Error;
use vstd::prelude::*;
use vstd::slice::{slice_subrange, slice_to_vec};

verus! {

/// Flag bit: this frame ends the stream.
pub const END_STREAM: u8 = 0x1;

/// Flag bit: the payload starts with a padding length and ends with padding.
pub const PADDED: u8 = 0x8;

/// A DATA frame carrying a payload of type `T`.
#[derive(Debug)]
pub struct Data<T> {
    pub stream_id: StreamId,
    pub data: T,
    pub end_stream: bool,
    pub pad_len: Option<u8>,
}

impl<T> Data<T> {
    /// A frame without flags.
    pub fn new(stream_id: StreamId, payload: T) -> (frame: Data<T>)
        ensures
            frame == (Data { stream_id, data: payload, end_stream: false, pad_len: None::<u8> }),
    {
        Data { stream_id, data: payload, end_stream: false, pad_len: None }
    }

    /// A frame around `data` that ends the stream where `end_stream` is set.
    pub fn from_buf(stream_id: StreamId, data: T, end_stream: bool) -> (frame: Data<T>)
        ensures
            frame == (Data { stream_id, data, end_stream, pad_len: None::<u8> }),
    {
        Data { stream_id, data, end_stream, pad_len: None }
    }

    pub fn stream_id(&self) -> (id: StreamId)
        ensures
            id == self.stream_id,
    {
        self.stream_id
    }

    pub fn is_end_stream(&self) -> (r: bool)
        ensures
            r == self.end_stream,
    {
        self.end_stream
    }

    pub fn set_end_stream(&mut self)
        ensures
            *final(self) == (Data { end_stream: true, ..*old(self) }),
    {
        self.end_stream = true;
    }

    pub fn unset_end_stream(&mut self)
        ensures
            *final(self) == (Data { end_stream: false, ..*old(self) }),
    {
        self.end_stream = false;
    }

    pub fn payload(&self) -> (p: &T)
        ensures
            *p == self.data,
    {
        &self.data
    }

    pub fn into_payload(self) -> (p: T)
        ensures
            p == self.data,
    {
        self.data
    }
}

impl Data<Payload> {
    /// Why a DATA frame with this head and payload is refused, if it is.
    pub open spec fn spec_load_error(head: Head, payload: Seq<u8>) -> Option<Error> {
        if head.stream_id.0 == 0 {
            Some(Error::InvalidStreamId)
        } else if head.flag & PADDED == PADDED && (payload.len() == 0 || payload[0]
            >= payload.len()) {
            Some(Error::TooMuchPadding)
        } else {
            None
        }
    }

    /// The padding length that an accepted DATA frame announces.
    pub open spec fn spec_pad_len(head: Head, payload: Seq<u8>) -> Option<u8> {
        if head.flag & PADDED == PADDED {
            Some(payload[0])
        } else {
            None
        }
    }

    /// The application bytes of an accepted DATA frame: the payload
    /// without the padding length and the padding.
    pub open spec fn spec_body(head: Head, payload: Seq<u8>) -> Seq<u8> {
        if head.flag & PADDED == PADDED {
            payload.subrange(1, payload.len() - payload[0])
        } else {
            payload
        }
    }

    /// Decodes a DATA frame from its head and payload.
    pub fn load(head: Head, payload: &[u8]) -> (res: Result<Data<Payload>, Error>)
        ensures
            match res {
                Ok(frame) => {
                    &&& Self::spec_load_error(head, payload@) is None
                    &&& frame.stream_id == head.stream_id
                    &&& frame.end_stream == (head.flag & END_STREAM == END_STREAM)
                    &&& frame.pad_len == Self::spec_pad_len(head, payload@)
                    &&& frame.data@ == Self::spec_body(head, payload@)
                },
                Err(e) => Self::spec_load_error(head, payload@) == Some(e),
            },
    {
        if head.stream_id.0 == 0 {
            return Err(Error::InvalidStreamId);
        }
        let end_stream = head.flag & END_STREAM == END_STREAM;
        if head.flag & PADDED == PADDED {
            let len = payload.len();
            if len == 0 {
                return Err(Error::TooMuchPadding);
            }
            let pad = payload[0];
            if pad as usize >= len {
                return Err(Error::TooMuchPadding);
            }
            let body = slice_to_vec(slice_subrange(payload, 1, len - pad as usize));
            Ok(
                Data {
                    stream_id: head.stream_id,
                    data: Payload::new(body),
                    end_stream,
                    pad_len: Some(pad),
                },
            )
        } else {
            let body = slice_to_vec(payload);
            Ok(
                Data {
                    stream_id: head.stream_id,
                    data: Payload::new(body),
                    end_stream,
                    pad_len: None,
                },
            )
        }
    }
}

} // verus!
