use h2::error::Reason;
use h2::frame::{
    Data, Error, GoAway, Head, Headers, Kind, Payload, Ping, Priority, PushPromise, Reset,
    Settings, StreamDependency, StreamId, WindowUpdate, HEADER_LEN,
};

fn head(kind: Kind, flag: u8, stream: u32) -> Head {
    Head::new(kind, flag, StreamId(stream))
}

#[test]
fn head_parse_reads_kind_flags_and_stream() {
    let bytes = [0, 0, 5, 1, 0x25, 0x80, 0, 0, 7];
    assert_eq!(HEADER_LEN, 9);
    let head = Head::parse(&bytes);
    assert_eq!(head.kind(), Kind::Headers);
    assert_eq!(head.flag(), 0x25);
    assert_eq!(head.stream_id(), StreamId(7));
    assert_eq!(Head::payload_len(&bytes), 5);
}

#[test]
fn head_payload_len_is_big_endian() {
    let bytes = [1, 2, 3, 0, 0, 0, 0, 0, 0];
    assert_eq!(Head::payload_len(&bytes), 66051);
}

#[test]
fn kind_of_each_type_byte() {
    let kinds = [
        Kind::Data,
        Kind::Headers,
        Kind::Priority,
        Kind::Reset,
        Kind::Settings,
        Kind::PushPromise,
        Kind::Ping,
        Kind::GoAway,
        Kind::WindowUpdate,
        Kind::Continuation,
    ];
    for (byte, kind) in kinds.iter().enumerate() {
        assert_eq!(Kind::new(byte as u8), *kind);
    }
    assert_eq!(Kind::new(10), Kind::Unknown);
    assert_eq!(Kind::new(255), Kind::Unknown);
}

#[test]
fn stream_id_drops_the_reserved_bit() {
    assert_eq!(StreamId::parse(&[0xff, 0xff, 0xff, 0xff], 0), StreamId(0x7fff_ffff));
    assert_eq!(StreamId::parse(&[9, 0x80, 0, 0, 1], 1), StreamId(1));
    assert!(StreamId::zero().is_zero());
    assert!(!StreamId(3).is_zero());
    let mut id = StreamId(5);
    id.increment();
    assert_eq!(id.as_u32(), 7);
}

#[test]
fn reason_codes_round_trip() {
    for code in 0..20u32 {
        assert_eq!(Reason::from_code(code).code(), code);
    }
    assert_eq!(Reason::from_code(1), Reason::ProtocolError);
    assert_eq!(Reason::from_code(3), Reason::FlowControlError);
    assert_eq!(Reason::from_code(8), Reason::Cancel);
    assert_eq!(Reason::from_code(99), Reason::Other(99));
    assert_eq!(Reason::Http11Required.code(), 13);
}

#[test]
fn data_load_plain() {
    let frame = Data::load(head(Kind::Data, 0x1, 3), b"hello").unwrap();
    assert_eq!(frame.stream_id(), StreamId(3));
    assert!(frame.is_end_stream());
    assert_eq!(frame.pad_len, None);
    assert_eq!(frame.payload().bytes(), b"hello");
}

#[test]
fn data_load_strips_padding() {
    let frame = Data::load(head(Kind::Data, 0x8, 3), &[2, b'a', b'b', b'c', 0, 0]).unwrap();
    assert!(!frame.is_end_stream());
    assert_eq!(frame.pad_len, Some(2));
    assert_eq!(frame.payload().bytes(), b"abc");
}

#[test]
fn data_load_errors() {
    assert_eq!(
        Data::load(head(Kind::Data, 0, 0), b"x").err(),
        Some(Error::InvalidStreamId)
    );
    assert_eq!(
        Data::load(head(Kind::Data, 0x8, 1), &[]).err(),
        Some(Error::TooMuchPadding)
    );
    assert_eq!(
        Data::load(head(Kind::Data, 0x8, 1), &[3, 1, 2]).err(),
        Some(Error::TooMuchPadding)
    );
}

#[test]
fn data_flags_can_be_changed() {
    let mut frame = Data::new(StreamId(1), Payload::new(vec![1, 2, 3]));
    assert!(!frame.is_end_stream());
    frame.set_end_stream();
    assert!(frame.is_end_stream());
    frame.unset_end_stream();
    assert!(!frame.is_end_stream());
    assert_eq!(frame.into_payload().remaining(), 3);
}

#[test]
fn payload_is_read_through_a_cursor() {
    let mut payload = Payload::new(vec![1, 2, 3, 4, 5]);
    assert_eq!(payload.remaining(), 5);
    assert!(payload.has_remaining());
    payload.advance(2);
    assert_eq!(payload.remaining(), 3);
    assert_eq!(payload.bytes(), &[3, 4, 5]);
    payload.advance(3);
    assert!(!payload.has_remaining());
    assert_eq!(payload.bytes(), &[] as &[u8]);
}

#[test]
fn headers_load_plain() {
    let (frame, block) = Headers::load(head(Kind::Headers, 0x5, 1), &[1, 2, 3]).unwrap();
    assert_eq!(frame.stream_id(), StreamId(1));
    assert!(frame.is_end_stream());
    assert!(frame.is_end_headers());
    assert_eq!(frame.stream_dep, None);
    assert!(frame.fields.is_empty());
    assert_eq!(block, vec![1, 2, 3]);
}

#[test]
fn headers_load_with_padding_and_priority() {
    let payload = [2, 0x80, 0, 0, 9, 42, 7, 8, 9, 0, 0];
    let (frame, block) = Headers::load(head(Kind::Headers, 0x28, 5), &payload).unwrap();
    assert!(!frame.is_end_stream());
    assert!(!frame.is_end_headers());
    assert_eq!(
        frame.stream_dep,
        Some(StreamDependency::new(StreamId(9), 42, true))
    );
    assert_eq!(block, vec![7, 8, 9]);
}

#[test]
fn headers_load_errors() {
    assert_eq!(
        Headers::load(head(Kind::Headers, 0x4, 0), &[]).err(),
        Some(Error::InvalidStreamId)
    );
    assert_eq!(
        Headers::load(head(Kind::Headers, 0x8, 1), &[]).err(),
        Some(Error::TooMuchPadding)
    );
    assert_eq!(
        Headers::load(head(Kind::Headers, 0x20, 1), &[0, 0, 0, 2]).err(),
        Some(Error::InvalidPayloadLength)
    );
    assert_eq!(
        Headers::load(head(Kind::Headers, 0x20, 7), &[0, 0, 0, 7, 1]).err(),
        Some(Error::InvalidDependencyId)
    );
    assert_eq!(
        Headers::load(head(Kind::Headers, 0x8, 1), &[3, 1, 2]).err(),
        Some(Error::TooMuchPadding)
    );
}

#[test]
fn headers_constructors() {
    let frame = Headers::new(StreamId(1), Vec::new());
    assert!(!frame.is_end_stream());
    assert!(frame.is_end_headers());
    let mut frame = Headers::trailers(StreamId(1), Vec::new());
    assert!(frame.is_end_stream());
    frame.set_end_stream();
    assert!(frame.is_end_stream());
}

#[test]
fn priority_load() {
    let frame = Priority::load(head(Kind::Priority, 0, 3), &[0, 0, 0, 1, 15]).unwrap();
    assert_eq!(frame.stream_id, StreamId(3));
    assert_eq!(
        frame.dependency,
        StreamDependency::new(StreamId(1), 15, false)
    );
    assert_eq!(frame.dependency.dependency_id(), StreamId(1));
    assert_eq!(
        Priority::load(head(Kind::Priority, 0, 3), &[0, 0, 0, 3, 15]),
        Err(Error::InvalidDependencyId)
    );
    assert_eq!(
        Priority::load(head(Kind::Priority, 0, 3), &[0, 0, 0, 1]),
        Err(Error::BadFrameSize)
    );
}

#[test]
fn reset_load() {
    let frame = Reset::load(head(Kind::Reset, 0, 3), &[0, 0, 0, 8]).unwrap();
    assert_eq!(frame, Reset::new(StreamId(3), Reason::Cancel));
    assert_eq!(frame.stream_id(), StreamId(3));
    assert_eq!(frame.reason(), Reason::Cancel);
    assert_eq!(
        Reset::load(head(Kind::Reset, 0, 3), &[0, 0, 8]),
        Err(Error::InvalidPayloadLength)
    );
}

#[test]
fn ping_load() {
    let frame = Ping::load(head(Kind::Ping, 1, 0), &[1, 2, 3, 4, 5, 6, 7, 8]).unwrap();
    assert!(frame.is_ack());
    assert_eq!(frame.payload, [1, 2, 3, 4, 5, 6, 7, 8]);
    assert_eq!(
        Ping::load(head(Kind::Ping, 0, 1), &[0; 8]).err(),
        Some(Error::InvalidStreamId)
    );
    assert_eq!(
        Ping::load(head(Kind::Ping, 0, 0), &[0; 7]).err(),
        Some(Error::BadFrameSize)
    );
}

#[test]
fn go_away_load() {
    let frame = GoAway::load(&[0x80, 0, 0, 5, 0, 0, 0, 1, b'x']).unwrap();
    assert_eq!(frame, GoAway::new(StreamId(5), Reason::ProtocolError));
    assert_eq!(frame.reason(), Reason::ProtocolError);
    assert_eq!(GoAway::load(&[0; 7]), Err(Error::BadFrameSize));
}

#[test]
fn window_update_load() {
    let frame = WindowUpdate::load(head(Kind::WindowUpdate, 0, 0), &[0x80, 0, 1, 0]).unwrap();
    assert_eq!(frame, WindowUpdate::new(StreamId(0), 256));
    assert_eq!(frame.stream_id(), StreamId(0));
    assert_eq!(frame.size_increment(), 256);
    assert_eq!(
        WindowUpdate::load(head(Kind::WindowUpdate, 0, 0), &[0, 1, 0]),
        Err(Error::BadFrameSize)
    );
}

#[test]
fn push_promise_load() {
    let frame = PushPromise::load(head(Kind::PushPromise, 4, 1), &[0, 0, 0, 2, 9]).unwrap();
    assert_eq!(frame.stream_id(), StreamId(1));
    assert_eq!(frame.promised_id(), StreamId(2));
    assert_eq!(
        PushPromise::load(head(Kind::PushPromise, 4, 1), &[0, 0, 2]),
        Err(Error::BadFrameSize)
    );
}

#[test]
fn settings_load_entries() {
    let payload = [
        0, 3, 0, 0, 0, 100, // max concurrent streams
        0, 4, 0, 0, 3, 232, // initial window size
        0, 9, 0, 0, 0, 1, // unknown
        0, 5, 0, 0, 64, 0, // max frame size
    ];
    let settings = Settings::load(head(Kind::Settings, 0, 0), &payload).unwrap();
    assert!(!settings.is_ack());
    assert_eq!(settings.max_concurrent_streams(), Some(100));
    assert_eq!(settings.initial_window_size(), Some(1000));
    assert_eq!(settings.max_frame_size(), Some(16384));
    assert_eq!(settings.header_table_size, None);
    assert_eq!(settings.enable_push, None);
    assert_eq!(settings.max_header_list_size, None);
}

#[test]
fn settings_later_entry_wins() {
    let payload = [0, 1, 0, 0, 0, 1, 0, 1, 0, 0, 0, 2, 0, 6, 0, 0, 0, 9, 0, 2, 0, 0, 0, 1];
    let settings = Settings::load(head(Kind::Settings, 0, 0), &payload).unwrap();
    assert_eq!(settings.header_table_size, Some(2));
    assert_eq!(settings.max_header_list_size, Some(9));
    assert_eq!(settings.enable_push, Some(1));
}

#[test]
fn settings_load_ack() {
    let settings = Settings::load(head(Kind::Settings, 1, 0), &[]).unwrap();
    assert_eq!(settings, Settings::ack());
    assert!(settings.is_ack());
    assert_eq!(
        Settings::load(head(Kind::Settings, 1, 0), &[0; 6]),
        Err(Error::InvalidPayloadLength)
    );
}

#[test]
fn settings_load_errors() {
    assert_eq!(
        Settings::load(head(Kind::Settings, 0, 1), &[]),
        Err(Error::InvalidStreamId)
    );
    assert_eq!(
        Settings::load(head(Kind::Settings, 0, 0), &[0, 3, 0, 0, 0]),
        Err(Error::InvalidPayloadAckSettings)
    );
    assert_eq!(
        Settings::load(head(Kind::Settings, 0, 0), &[0, 2, 0, 0, 0, 2]),
        Err(Error::InvalidSettingValue)
    );
    assert_eq!(
        Settings::load(head(Kind::Settings, 0, 0), &[0, 4, 0x80, 0, 0, 0]),
        Err(Error::InvalidSettingValue)
    );
    assert_eq!(
        Settings::load(head(Kind::Settings, 0, 0), &[0, 5, 0, 0, 0x3f, 0xff]),
        Err(Error::InvalidSettingValue)
    );
    assert_eq!(
        Settings::load(head(Kind::Settings, 0, 0), &[0, 5, 1, 0, 0, 0]),
        Err(Error::InvalidSettingValue)
    );
    assert_eq!(
        Settings::load(
            head(Kind::Settings, 0, 0),
            &[0, 3, 0, 0, 0, 1, 0, 2, 0, 0, 0, 7, 0, 3, 0, 0, 0, 2]
        ),
        Err(Error::InvalidSettingValue)
    );
}

#[test]
fn settings_empty_and_setters() {
    let mut settings = Settings::new();
    assert_eq!(Settings::load(head(Kind::Settings, 0, 0), &[]), Ok(settings));
    settings.set_initial_window_size(Some(7));
    settings.set_max_concurrent_streams(Some(3));
    assert_eq!(settings.initial_window_size(), Some(7));
    assert_eq!(settings.max_concurrent_streams(), Some(3));
}
