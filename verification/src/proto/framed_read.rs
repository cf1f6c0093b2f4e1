//! Decodes received frames, and folds CONTINUATION frames into the HEADERS
//! frame that they continue.
//!
//! The reader is handed one frame at a time, head included, by whatever cuts
//! the byte stream into frames. Decompressing a header block is not its
//! part: a completed block is handed out with its HEADERS frame, and the
//! outcome of decompressing it is taken back by `load_hpack`.

use crate::error::{ProtoError, Reason};
use crate::frame::headers::END_HEADERS;
use crate::frame::{
    Data, Error, Frame, GoAway, Head, HeaderField, Headers, Kind, Payload, Ping, Priority,
    PushPromise, Reset, Settings, WindowUpdate, HEADER_LEN,
};
use vstd::prelude::*;
use vstd::slice::slice_subrange;

verus! {

/// A HEADERS frame whose header block is not complete yet.
struct Partial {
    /// The frame, without its header list.
    frame: Headers,
    /// What has arrived of the header block.
    buf: Vec<u8>,
}

/// The state of the reader between frames.
pub struct FramedRead {
    partial: Option<Partial>,
}

/// What a received frame amounts to.
pub enum Decoded {
    /// A complete frame.
    Frame(Frame<Payload>),
    /// A HEADERS frame with its complete header block, still compressed.
    HeaderBlock(Headers, Vec<u8>),
}

/// The outcome of decompressing a header block.
pub enum Decompressed {
    /// The header list.
    Fields(Vec<HeaderField>),
    /// The block holds a header list that no message may have.
    Malformed,
    /// The block could not be decompressed.
    Failed,
}

/// The error that closes the connection.
pub open spec fn connection_error() -> ProtoError {
    ProtoError::Connection(Reason::ProtocolError)
}

/// What the reader makes of an error in a HEADERS or PRIORITY frame: a
/// stream that depends on itself is reset, anything else closes the
/// connection.
pub open spec fn dependency_error(head: Head, e: Error) -> ProtoError {
    if e == Error::InvalidDependencyId {
        ProtoError::Stream { id: head.stream_id, reason: Reason::ProtocolError }
    } else {
        connection_error()
    }
}

/// Appends `src` to `buf`.
fn extend(buf: &mut Vec<u8>, src: &[u8])
    ensures
        final(buf)@ == old(buf)@ + src@,
{
    let mut i: usize = 0;
    while i < src.len()
        invariant
            i <= src@.len(),
            buf@ == old(buf)@ + src@.take(i as int),
        decreases src@.len() - i,
    {
        buf.push(src[i]);
        assert(src@.take(i + 1) =~= src@.take(i as int).push(src@[i as int]));
        i = i + 1;
    }
    assert(src@.take(src@.len() as int) =~= src@);
}

impl FramedRead {
    /// The HEADERS frame that is being continued, with what has arrived of
    /// its header block.
    pub closed spec fn spec_partial(&self) -> Option<(Headers, Seq<u8>)> {
        match self.partial {
            Some(p) => Some((p.frame, p.buf@)),
            None => None,
        }
    }

    /// A reader that is not in the middle of a header block.
    pub fn new() -> (reader: FramedRead)
        ensures
            reader.spec_partial() is None,
    {
        FramedRead { partial: None }
    }

    /// The peer's settings do not concern the reader.
    pub fn apply_remote_settings(&mut self, settings: &Settings)
        ensures
            *final(self) == *old(self),
    {
    }

    /// True while a HEADERS frame waits for its CONTINUATION frames.
    pub fn is_partial(&self) -> (r: bool)
        ensures
            r == self.spec_partial() is Some,
    {
        self.partial.is_some()
    }

    /// What a frame that is neither HEADERS nor CONTINUATION decodes to
    /// when no header block is open.
    pub open spec fn decodes_plain(head: Head, payload: Seq<u8>, res: Result<
        Option<Decoded>,
        ProtoError,
    >) -> bool {
        match head.kind {
            Kind::Settings => match Settings::spec_load(head, payload) {
                Ok(f) => res matches Ok(Some(Decoded::Frame(Frame::Settings(g)))) && g == f,
                Err(_) => res == Err::<Option<Decoded>, ProtoError>(connection_error()),
            },
            Kind::Ping => match Ping::spec_load_error(head, payload) {
                None => res matches Ok(Some(Decoded::Frame(Frame::Ping(g)))) && g.ack == (head.flag
                    & 1 == 1) && g.payload@ == payload,
                Some(_) => res == Err::<Option<Decoded>, ProtoError>(connection_error()),
            },
            Kind::WindowUpdate => match WindowUpdate::spec_load(head, payload) {
                Ok(f) => res matches Ok(Some(Decoded::Frame(Frame::WindowUpdate(g)))) && g == f,
                Err(_) => res == Err::<Option<Decoded>, ProtoError>(connection_error()),
            },
            Kind::Reset => match Reset::spec_load(head, payload) {
                Ok(f) => res matches Ok(Some(Decoded::Frame(Frame::Reset(g)))) && g == f,
                Err(_) => res == Err::<Option<Decoded>, ProtoError>(connection_error()),
            },
            Kind::GoAway => match GoAway::spec_load(payload) {
                Ok(f) => res matches Ok(Some(Decoded::Frame(Frame::GoAway(g)))) && g == f,
                Err(_) => res == Err::<Option<Decoded>, ProtoError>(connection_error()),
            },
            Kind::PushPromise => match PushPromise::spec_load(head, payload) {
                Ok(f) => res matches Ok(Some(Decoded::Frame(Frame::PushPromise(g)))) && g == f,
                Err(_) => res == Err::<Option<Decoded>, ProtoError>(connection_error()),
            },
            Kind::Priority => if head.stream_id.0 == 0 {
                res == Err::<Option<Decoded>, ProtoError>(connection_error())
            } else {
                match Priority::spec_load(head, payload) {
                    Ok(f) => res matches Ok(Some(Decoded::Frame(Frame::Priority(g)))) && g == f,
                    Err(e) => res == Err::<Option<Decoded>, ProtoError>(dependency_error(head, e)),
                }
            },
            Kind::Data => match Data::<Payload>::spec_load_error(head, payload) {
                None => res matches Ok(Some(Decoded::Frame(Frame::Data(g)))) && g.stream_id
                    == head.stream_id && g.end_stream == (head.flag & 1 == 1) && g.pad_len
                    == Data::<Payload>::spec_pad_len(head, payload) && g.data@ == Data::<
                    Payload,
                >::spec_body(head, payload),
                Some(_) => res == Err::<Option<Decoded>, ProtoError>(connection_error()),
            },
            Kind::Unknown => res matches Ok(None),
            _ => true,
        }
    }

    /// What a HEADERS frame decodes to when no header block is open: with
    /// END_HEADERS, the frame and its block; without, nothing yet, and the
    /// frame and its block fragment are kept.
    pub open spec fn decodes_headers(
        head: Head,
        payload: Seq<u8>,
        res: Result<Option<Decoded>, ProtoError>,
        kept: Option<(Headers, Seq<u8>)>,
    ) -> bool {
        match Headers::spec_load_error(head, payload) {
            Some(e) => res == Err::<Option<Decoded>, ProtoError>(dependency_error(head, e))
                && kept is None,
            None => {
                let block = Headers::spec_block(head, payload);
                if head.flag & END_HEADERS == END_HEADERS {
                    &&& kept is None
                    &&& res matches Ok(Some(Decoded::HeaderBlock(h, b)))
                    &&& Self::loaded(head, payload, h)
                    &&& b@ == block
                } else {
                    &&& res matches Ok(None)
                    &&& kept matches Some((h, b))
                    &&& Self::loaded(head, payload, h)
                    &&& b == block
                }
            },
        }
    }

    /// `h` is the HEADERS frame that this head and payload decode to,
    /// before its header block is decompressed.
    pub open spec fn loaded(head: Head, payload: Seq<u8>, h: Headers) -> bool {
        &&& h.stream_id == head.stream_id
        &&& h.stream_dep == Headers::spec_dependency(head.flag, payload)
        &&& h.fields@.len() == 0
        &&& h.end_stream == (head.flag & 1 == 1)
        &&& h.end_headers == (head.flag & END_HEADERS == END_HEADERS)
    }

    /// What a CONTINUATION frame decodes to. Without an open header block,
    /// or on another stream than the open block's, it closes the
    /// connection and no block is open afterwards. Otherwise its payload is
    /// appended to the block; with END_HEADERS the block is complete and
    /// handed out with its frame.
    pub open spec fn decodes_continuation(
        open: Option<(Headers, Seq<u8>)>,
        head: Head,
        payload: Seq<u8>,
        res: Result<Option<Decoded>, ProtoError>,
        kept: Option<(Headers, Seq<u8>)>,
    ) -> bool {
        match open {
            None => res == Err::<Option<Decoded>, ProtoError>(connection_error()) && kept is None,
            Some((frame, buf)) => if frame.stream_id != head.stream_id {
                res == Err::<Option<Decoded>, ProtoError>(connection_error()) && kept is None
            } else if head.flag & END_HEADERS == END_HEADERS {
                &&& kept is None
                &&& res matches Ok(Some(Decoded::HeaderBlock(h, b)))
                &&& h == frame
                &&& b@ == buf + payload
            } else {
                &&& res matches Ok(None)
                &&& kept == Some((frame, buf + payload))
            },
        }
    }

    /// Decodes one received frame, head included.
    ///
    /// A frame shorter than a head closes the connection. While a header
    /// block is open, any frame but a CONTINUATION closes the connection,
    /// and the block stays open. A frame of unknown type is passed over.
    /// Where decoding fails, the connection is closed with a protocol
    /// error, except that a stream depending on itself is reset.
    pub fn decode_frame(&mut self, bytes: &[u8]) -> (res: Result<Option<Decoded>, ProtoError>)
        ensures
            bytes@.len() < HEADER_LEN ==> res == Err::<Option<Decoded>, ProtoError>(
                connection_error(),
            ) && final(self).spec_partial() == old(self).spec_partial(),
            bytes@.len() >= HEADER_LEN ==> ({
                let head = Head::spec_parse(bytes@);
                let payload = bytes@.skip(HEADER_LEN as int);
                if old(self).spec_partial() is Some && head.kind != Kind::Continuation {
                    res == Err::<Option<Decoded>, ProtoError>(connection_error())
                        && final(self).spec_partial() == old(self).spec_partial()
                } else if head.kind == Kind::Continuation {
                    Self::decodes_continuation(
                        old(self).spec_partial(),
                        head,
                        payload,
                        res,
                        final(self).spec_partial(),
                    )
                } else if head.kind == Kind::Headers {
                    Self::decodes_headers(head, payload, res, final(self).spec_partial())
                } else {
                    Self::decodes_plain(head, payload, res) && final(self).spec_partial() is None
                }
            }),
    {
        if bytes.len() < HEADER_LEN {
            return Err(ProtoError::Connection(Reason::ProtocolError));
        }
        let head = Head::parse(bytes);
        let payload = slice_subrange(bytes, HEADER_LEN, bytes.len());
        assert(payload@ =~= bytes@.skip(HEADER_LEN as int));
        let kind = head.kind();
        if self.partial.is_some() && kind != Kind::Continuation {
            return Err(ProtoError::Connection(Reason::ProtocolError));
        }
        match kind {
            Kind::Settings => match Settings::load(head, payload) {
                Ok(f) => Ok(Some(Decoded::Frame(Frame::Settings(f)))),
                Err(_) => Err(ProtoError::Connection(Reason::ProtocolError)),
            },
            Kind::Ping => match Ping::load(head, payload) {
                Ok(f) => Ok(Some(Decoded::Frame(Frame::Ping(f)))),
                Err(_) => Err(ProtoError::Connection(Reason::ProtocolError)),
            },
            Kind::WindowUpdate => match WindowUpdate::load(head, payload) {
                Ok(f) => Ok(Some(Decoded::Frame(Frame::WindowUpdate(f)))),
                Err(_) => Err(ProtoError::Connection(Reason::ProtocolError)),
            },
            Kind::Data => match Data::load(head, payload) {
                Ok(f) => Ok(Some(Decoded::Frame(Frame::Data(f)))),
                Err(_) => Err(ProtoError::Connection(Reason::ProtocolError)),
            },
            Kind::Headers => self.decode_headers(head, payload),
            Kind::Reset => match Reset::load(head, payload) {
                Ok(f) => Ok(Some(Decoded::Frame(Frame::Reset(f)))),
                Err(_) => Err(ProtoError::Connection(Reason::ProtocolError)),
            },
            Kind::GoAway => match GoAway::load(payload) {
                Ok(f) => Ok(Some(Decoded::Frame(Frame::GoAway(f)))),
                Err(_) => Err(ProtoError::Connection(Reason::ProtocolError)),
            },
            Kind::PushPromise => match PushPromise::load(head, payload) {
                Ok(f) => Ok(Some(Decoded::Frame(Frame::PushPromise(f)))),
                Err(_) => Err(ProtoError::Connection(Reason::ProtocolError)),
            },
            Kind::Priority => {
                if head.stream_id().is_zero() {
                    return Err(ProtoError::Connection(Reason::ProtocolError));
                }
                match Priority::load(head, payload) {
                    Ok(f) => Ok(Some(Decoded::Frame(Frame::Priority(f)))),
                    Err(Error::InvalidDependencyId) => Err(
                        ProtoError::Stream { id: head.stream_id(), reason: Reason::ProtocolError },
                    ),
                    Err(_) => Err(ProtoError::Connection(Reason::ProtocolError)),
                }
            },
            Kind::Continuation => self.decode_continuation(head, payload),
            Kind::Unknown => Ok(None),
        }
    }

    /// Decodes a HEADERS frame when no header block is open.
    fn decode_headers(&mut self, head: Head, payload: &[u8]) -> (res: Result<
        Option<Decoded>,
        ProtoError,
    >)
        requires
            old(self).spec_partial() is None,
        ensures
            Self::decodes_headers(head, payload@, res, final(self).spec_partial()),
    {
        match Headers::load(head, payload) {
            Ok((headers, block)) => {
                if headers.is_end_headers() {
                    Ok(Some(Decoded::HeaderBlock(headers, block)))
                } else {
                    self.partial = Some(Partial { frame: headers, buf: block });
                    Ok(None)
                }
            },
            Err(Error::InvalidDependencyId) => Err(
                ProtoError::Stream { id: head.stream_id(), reason: Reason::ProtocolError },
            ),
            Err(_) => Err(ProtoError::Connection(Reason::ProtocolError)),
        }
    }

    /// Decodes a CONTINUATION frame.
    fn decode_continuation(&mut self, head: Head, payload: &[u8]) -> (res: Result<
        Option<Decoded>,
        ProtoError,
    >)
        ensures
            Self::decodes_continuation(
                old(self).spec_partial(),
                head,
                payload@,
                res,
                final(self).spec_partial(),
            ),
    {
        let end_of_headers = head.flag() & END_HEADERS == END_HEADERS;
        let mut partial = match self.partial.take() {
            Some(partial) => partial,
            None => {
                return Err(ProtoError::Connection(Reason::ProtocolError));
            },
        };
        if partial.frame.stream_id.0 != head.stream_id().0 {
            return Err(ProtoError::Connection(Reason::ProtocolError));
        }
        extend(&mut partial.buf, payload);
        if !end_of_headers {
            self.partial = Some(partial);
            return Ok(None);
        }
        let Partial { frame, buf } = partial;
        Ok(Some(Decoded::HeaderBlock(frame, buf)))
    }

    /// Completes a HEADERS frame with the outcome of decompressing its
    /// header block: the frame with its header list; or the reset of the
    /// stream, for a header list that no message may have; or the end of
    /// the connection, where the block could not be decompressed.
    pub fn load_hpack(headers: Headers, outcome: Decompressed) -> (res: Result<
        Frame<Payload>,
        ProtoError,
    >)
        ensures
            match outcome {
                Decompressed::Fields(fields) => res == Ok::<Frame<Payload>, ProtoError>(
                    Frame::Headers(Headers { fields, ..headers }),
                ),
                Decompressed::Malformed => res == Err::<Frame<Payload>, ProtoError>(
                    ProtoError::Stream { id: headers.stream_id, reason: Reason::ProtocolError },
                ),
                Decompressed::Failed => res == Err::<Frame<Payload>, ProtoError>(
                    connection_error(),
                ),
            },
    {
        match outcome {
            Decompressed::Fields(fields) => {
                let mut headers = headers;
                headers.set_fields(fields);
                Ok(Frame::Headers(headers))
            },
            Decompressed::Malformed => Err(
                ProtoError::Stream { id: headers.stream_id(), reason: Reason::ProtocolError },
            ),
            Decompressed::Failed => Err(ProtoError::Connection(Reason::ProtocolError)),
        }
    }
}

} // verus!
