//! HTTP/2 frames: the nine-byte head and the frame types.

pub mod control;
pub mod data;
pub mod head;
pub mod headers;
pub mod payload;
pub mod settings;

pub use self::control::{GoAway, Ping, Priority, Reset, WindowUpdate};
pub use self::data::Data;
pub use self::head::{Head, Kind, StreamId, HEADER_LEN, MAX_STREAM_ID};
pub use self::headers::{HeaderField, Headers, PushPromise, StreamDependency};
pub use self::payload::Payload;
pub use self::settings::{Settings, DEFAULT_SETTINGS_HEADER_TABLE_SIZE};

use vstd::prelude::*;

verus! {

/// Why a frame could not be decoded.
#[derive(Debug, Clone, Copy, PartialEq, Eq, Structural)]
pub enum Error {
    /// The payload has a length that the frame type does not allow.
    BadFrameSize,
    /// The padding is as long as the payload or longer.
    TooMuchPadding,
    /// A setting has a value outside its range.
    InvalidSettingValue,
    /// The payload is too short or too long for what the flags announce.
    InvalidPayloadLength,
    /// A SETTINGS acknowledgement carries a payload.
    InvalidPayloadAckSettings,
    /// The stream identifier is not one that the frame type allows.
    InvalidStreamId,
    /// The stream names itself as its dependency.
    InvalidDependencyId,
}

/// A frame of any type but CONTINUATION, whose payload is folded into the
/// HEADERS frame that it continues. `T` is the type of a DATA payload.
#[derive(Debug)]
pub enum Frame<T> {
    Data(Data<T>),
    Headers(Headers),
    Priority(Priority),
    PushPromise(PushPromise),
    Settings(Settings),
    Ping(Ping),
    GoAway(GoAway),
    WindowUpdate(WindowUpdate),
    Reset(Reset),
}

impl<T> Frame<T> {
    /// The same frame for another payload type; a DATA frame has none.
    pub open spec fn spec_without_payload<U>(self) -> Frame<U>
        recommends
            !(self is Data),
    {
        match self {
            Frame::Data(_) => arbitrary(),
            Frame::Headers(f) => Frame::Headers(f),
            Frame::Priority(f) => Frame::Priority(f),
            Frame::PushPromise(f) => Frame::PushPromise(f),
            Frame::Settings(f) => Frame::Settings(f),
            Frame::Ping(f) => Frame::Ping(f),
            Frame::GoAway(f) => Frame::GoAway(f),
            Frame::WindowUpdate(f) => Frame::WindowUpdate(f),
            Frame::Reset(f) => Frame::Reset(f),
        }
    }

    /// The same frame for another payload type. DATA frames are left out:
    /// their payload has to be converted.
    pub fn without_payload<U>(self) -> (frame: Frame<U>)
        requires
            !(self is Data),
        ensures
            frame == self.spec_without_payload::<U>(),
            !(frame is Data),
    {
        match self {
            Frame::Data(_) => vstd::pervasive::unreached(),
            Frame::Headers(f) => Frame::Headers(f),
            Frame::Priority(f) => Frame::Priority(f),
            Frame::PushPromise(f) => Frame::PushPromise(f),
            Frame::Settings(f) => Frame::Settings(f),
            Frame::Ping(f) => Frame::Ping(f),
            Frame::GoAway(f) => Frame::GoAway(f),
            Frame::WindowUpdate(f) => Frame::WindowUpdate(f),
            Frame::Reset(f) => Frame::Reset(f),
        }
    }
}

} // verus!
