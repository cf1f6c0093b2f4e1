use futures::future::lazy;
use futures::task::Task;
use futures::Future;
use h2::error::{ConnectionError, Reason, User};
use h2::frame::{
    Data, Frame, HeaderField, Headers, Payload, Settings, StreamId, WindowUpdate,
};
use h2::proto::streams::{
    Config, DrainAction, DrainEvent, Key, NextAccept, NextWindowUpdate, Peer, Prioritized, Queue,
    Send, Store, Stream,
};
use h2::error::ProtoError;
use h2::proto::{Async, Decoded, FramedRead, State, MAX_WINDOW_SIZE};

const MAX_FRAME: usize = 16384;

fn config(peer: Peer, window: i32, max: Option<usize>) -> Config {
    Config {
        peer,
        init_remote_window_sz: 65535,
        init_local_window_sz: window,
        max_local_initiated: max,
        max_remote_initiated: None,
    }
}

fn client(window: i32) -> (Send, Store) {
    (Send::new(&config(Peer::Client, window, None)), Store::new())
}

fn add_stream(send: &Send, store: &mut Store, id: u32) -> Key {
    store.insert(StreamId(id), Stream::new(StreamId(id), send.init_window_sz(), 65535))
}

fn open_stream(send: &mut Send, store: &mut Store, id: u32) -> Key {
    let key = add_stream(send, store, id);
    send.send_headers(Headers::new(StreamId(id), Vec::new()), store, key, &mut None)
        .unwrap();
    key
}

fn data(id: u32, len: usize, end_stream: bool) -> Data<Payload> {
    let bytes: Vec<u8> = (0..len).map(|i| i as u8).collect();
    Data::from_buf(StreamId(id), Payload::new(bytes), end_stream)
}

fn current_task() -> Task {
    lazy(|| Ok::<Task, ()>(futures::task::current())).wait().unwrap()
}

/// What the codec saw of one frame.
#[derive(Debug, PartialEq)]
enum Seen {
    Headers { stream: u32, end_stream: bool },
    Data { stream: u32, bytes: Vec<u8>, end_stream: bool },
    Reset { stream: u32, reason: Reason },
    Other,
}

/// Drains the sending side into a codec that writes every byte it may and
/// hands each DATA frame back afterwards.
fn drain(send: &mut Send, store: &mut Store, max_frame_len: usize) -> Vec<Seen> {
    let mut seen = Vec::new();
    let mut event = DrainEvent::Ready { last: None, max_frame_len };
    loop {
        match send.poll_complete(store, event) {
            DrainAction::Send(frame) => {
                let mut last: Option<Data<Prioritized>> = None;
                match frame {
                    Frame::Data(mut frame) => {
                        let bytes = frame.data.bytes().to_vec();
                        let written = frame.data.remaining();
                        frame.data.advance(written);
                        seen.push(Seen::Data {
                            stream: frame.stream_id().as_u32(),
                            bytes,
                            end_stream: frame.is_end_stream(),
                        });
                        last = Some(frame);
                    }
                    Frame::Headers(frame) => seen.push(Seen::Headers {
                        stream: frame.stream_id().as_u32(),
                        end_stream: frame.is_end_stream(),
                    }),
                    Frame::Reset(frame) => seen.push(Seen::Reset {
                        stream: frame.stream_id().as_u32(),
                        reason: frame.reason(),
                    }),
                    _ => seen.push(Seen::Other),
                }
                event = DrainEvent::Ready { last, max_frame_len };
            }
            DrainAction::Flush => {
                event = DrainEvent::Flushed { last: None, max_frame_len };
            }
            DrainAction::Done => return seen,
        }
    }
}

fn data_bytes(seen: &[Seen], id: u32) -> Vec<u8> {
    let mut all = Vec::new();
    for frame in seen.iter() {
        if let Seen::Data { stream, bytes, .. } = frame {
            if *stream == id {
                all.extend_from_slice(bytes);
            }
        }
    }
    all
}

fn granted_within_bounds(send: &Send, store: &Store) {
    let mut total: i64 = 0;
    for key in store.keys() {
        let stream = store.get(key);
        assert!(stream.send_flow.available() >= 0);
        assert!(stream.send_flow.available() <= stream.send_flow.window_size().max(0));
        assert!(stream.send_flow.available() <= stream.requested_send_capacity);
        total += stream.send_flow.available() as i64;
    }
    assert!(total + send.connection_available() as i64 <= send.connection_window() as i64);
}

#[test]
fn new_send_side() {
    let send = Send::new(&config(Peer::Client, 65535, Some(10)));
    assert_eq!(send.init_window_sz(), 65535);
    assert_eq!(send.next_stream_id(), StreamId(1));
    assert_eq!(send.num_streams(), 0);
    assert_eq!(send.max_streams(), Some(10));
    assert_eq!(send.connection_available(), 65535);
    assert_eq!(send.connection_window(), 65535);
    let send = Send::new(&config(Peer::Server, 100, None));
    assert_eq!(send.next_stream_id(), StreamId(2));
    assert_eq!(send.connection_available(), 100);
}

#[test]
fn open_counts_streams_and_steps_by_two() {
    let mut send = Send::new(&config(Peer::Client, 100, Some(2)));
    assert_eq!(send.open(), Ok(StreamId(1)));
    assert_eq!(send.open(), Ok(StreamId(3)));
    assert_eq!(send.num_streams(), 2);
    assert_eq!(send.next_stream_id(), StreamId(5));
    assert_eq!(send.open(), Err(ConnectionError::User(User::Rejected)));
    assert_eq!(send.num_streams(), 2);
    assert_eq!(send.next_stream_id(), StreamId(5));
    send.dec_num_streams();
    assert_eq!(send.num_streams(), 1);
    assert_eq!(send.open(), Ok(StreamId(5)));
}

#[test]
fn server_cannot_open() {
    let mut send = Send::new(&config(Peer::Server, 100, None));
    assert_eq!(
        send.open(),
        Err(ConnectionError::User(User::UnexpectedFrameType))
    );
    assert_eq!(send.num_streams(), 0);
    assert_eq!(send.next_stream_id(), StreamId(2));
    assert_eq!(
        send.poll_open_ready(current_task()),
        Err(ConnectionError::User(User::UnexpectedFrameType))
    );
}

#[test]
fn poll_open_ready_waits_at_the_limit() {
    let mut send = Send::new(&config(Peer::Client, 100, Some(1)));
    assert_eq!(send.poll_open_ready(current_task()), Ok(Async::Ready(())));
    send.open().unwrap();
    assert_eq!(send.poll_open_ready(current_task()), Ok(Async::NotReady));
    send.dec_num_streams();
    assert_eq!(send.poll_open_ready(current_task()), Ok(Async::Ready(())));
}

#[test]
fn ensure_not_idle() {
    let mut send = Send::new(&config(Peer::Client, 100, None));
    send.open().unwrap();
    send.open().unwrap();
    assert_eq!(send.ensure_not_idle(StreamId(1)), Ok(()));
    assert_eq!(send.ensure_not_idle(StreamId(4)), Ok(()));
    assert_eq!(
        send.ensure_not_idle(StreamId(5)),
        Err(ConnectionError::Proto(Reason::ProtocolError))
    );
    assert_eq!(
        send.ensure_not_idle(StreamId(7)),
        Err(ConnectionError::Proto(Reason::ProtocolError))
    );
}

#[test]
fn send_headers_opens_and_schedules() {
    let (mut send, mut store) = client(100);
    let key = add_stream(&send, &mut store, 1);
    let mut task = Some(current_task());
    assert_eq!(
        send.send_headers(Headers::new(StreamId(1), Vec::new()), &mut store, key, &mut task),
        Ok(())
    );
    assert!(task.is_none());
    assert_eq!(store.get(key).state, State::Open);
    assert!(store.get(key).is_pending_send);
    assert_eq!(
        drain(&mut send, &mut store, MAX_FRAME),
        vec![Seen::Headers { stream: 1, end_stream: false }]
    );
    assert!(!store.get(key).is_pending_send);
}

#[test]
fn send_headers_twice_is_refused() {
    let (mut send, mut store) = client(100);
    let key = open_stream(&mut send, &mut store, 1);
    let mut task = Some(current_task());
    assert_eq!(
        send.send_headers(Headers::new(StreamId(1), Vec::new()), &mut store, key, &mut task),
        Err(ConnectionError::User(User::UnexpectedFrameType))
    );
    assert!(task.is_some());
    assert_eq!(store.get(key).state, State::Open);
    assert_eq!(drain(&mut send, &mut store, MAX_FRAME).len(), 1);
}

#[test]
fn send_headers_with_end_stream() {
    let (mut send, mut store) = client(100);
    let key = add_stream(&send, &mut store, 1);
    let mut headers = Headers::new(StreamId(1), Vec::new());
    headers.set_end_stream();
    send.send_headers(headers, &mut store, key, &mut None).unwrap();
    assert_eq!(store.get(key).state, State::HalfClosedLocal);
    assert_eq!(
        drain(&mut send, &mut store, MAX_FRAME),
        vec![Seen::Headers { stream: 1, end_stream: true }]
    );
}

#[test]
fn simple_response() {
    // The client opens stream 1 with HEADERS that end its half.
    let (mut client_send, mut client_store) = client(65535);
    let id = client_send.open().unwrap();
    assert_eq!(id, StreamId(1));
    let key = add_stream(&client_send, &mut client_store, 1);
    let mut request = Headers::new(id, Vec::new());
    request.set_end_stream();
    client_send.send_headers(request, &mut client_store, key, &mut None).unwrap();
    assert_eq!(
        drain(&mut client_send, &mut client_store, MAX_FRAME),
        vec![Seen::Headers { stream: 1, end_stream: true }]
    );
    assert_eq!(client_store.get(key).state, State::HalfClosedLocal);

    // The server holds the stream for its response.
    let mut send = Send::new(&config(Peer::Server, 65535, None));
    let mut store = Store::new();
    let key = add_stream(&send, &mut store, 1);
    store.resolve(key).state = State::ReservedLocal;

    send.send_headers(Headers::new(StreamId(1), Vec::new()), &mut store, key, &mut None)
        .unwrap();
    send.send_data(
        Data::from_buf(StreamId(1), Payload::new(b"hello world".to_vec()), false),
        &mut store,
        key,
        &mut None,
    )
    .unwrap();
    let trailers = Headers::trailers(
        StreamId(1),
        vec![HeaderField { name: b"status".to_vec(), value: b"ok".to_vec() }],
    );
    send.send_trailers(trailers, &mut store, key, &mut None).unwrap();

    assert_eq!(
        drain(&mut send, &mut store, MAX_FRAME),
        vec![
            Seen::Headers { stream: 1, end_stream: false },
            Seen::Data { stream: 1, bytes: b"hello world".to_vec(), end_stream: false },
            Seen::Headers { stream: 1, end_stream: true },
        ]
    );
    assert_eq!(store.get(key).state, State::Closed);
    assert!(store.get(key).pending_send.is_empty());
    assert!(!store.get(key).is_pending_send);
    assert!(drain(&mut send, &mut store, MAX_FRAME).is_empty());
}

#[test]
fn trailers_keep_their_fields() {
    let (mut send, mut store) = client(100);
    let key = open_stream(&mut send, &mut store, 1);
    drain(&mut send, &mut store, MAX_FRAME);
    let trailers = Headers::trailers(
        StreamId(1),
        vec![HeaderField { name: b"status".to_vec(), value: b"ok".to_vec() }],
    );
    send.send_trailers(trailers, &mut store, key, &mut None).unwrap();
    let event = DrainEvent::Ready { last: None, max_frame_len: MAX_FRAME };
    match send.poll_complete(&mut store, event) {
        DrainAction::Send(Frame::Headers(frame)) => {
            assert_eq!(frame.fields.len(), 1);
            assert_eq!(frame.fields[0].name, b"status".to_vec());
            assert_eq!(frame.fields[0].value, b"ok".to_vec());
        }
        _ => panic!("expected the trailers"),
    }
}

#[test]
fn backpressure_across_streams() {
    let (mut send, mut store) = client(100);
    let a = open_stream(&mut send, &mut store, 1);
    let b = open_stream(&mut send, &mut store, 3);

    send.send_data(data(1, 80, false), &mut store, a, &mut None).unwrap();
    assert_eq!(store.get(a).send_flow.available(), 80);
    assert_eq!(send.connection_available(), 20);
    send.send_data(data(3, 80, false), &mut store, b, &mut None).unwrap();
    assert_eq!(store.get(b).send_flow.available(), 20);
    assert_eq!(send.connection_available(), 0);
    assert!(store.get(b).is_pending_send_capacity);
    assert!(!store.get(a).is_pending_send_capacity);
    granted_within_bounds(&send, &store);

    let seen = drain(&mut send, &mut store, MAX_FRAME);
    let expected: Vec<u8> = (0..80u8).collect();
    assert_eq!(
        seen,
        vec![
            Seen::Headers { stream: 1, end_stream: false },
            Seen::Headers { stream: 3, end_stream: false },
            Seen::Data { stream: 1, bytes: expected.clone(), end_stream: false },
            Seen::Data { stream: 3, bytes: expected[..20].to_vec(), end_stream: false },
        ]
    );
    assert_eq!(send.connection_window(), 0);
    assert_eq!(send.connection_available(), 0);
    assert!(!store.get(b).pending_send.is_empty());
    granted_within_bounds(&send, &store);

    assert_eq!(
        send.recv_connection_window_update(WindowUpdate::new(StreamId(0), 60), &mut store),
        Ok(())
    );
    assert_eq!(store.get(b).send_flow.available(), 60);
    assert_eq!(send.connection_available(), 0);
    granted_within_bounds(&send, &store);
    let seen = drain(&mut send, &mut store, MAX_FRAME);
    assert_eq!(
        seen,
        vec![Seen::Data { stream: 3, bytes: expected[20..].to_vec(), end_stream: false }]
    );
    assert!(store.get(b).pending_send.is_empty());
    assert_eq!(send.connection_window(), 0);
    granted_within_bounds(&send, &store);
}

#[test]
fn reset_reclamation() {
    let (mut send, mut store) = client(100);
    let key = open_stream(&mut send, &mut store, 3);
    drain(&mut send, &mut store, MAX_FRAME);
    send.send_data(data(3, 10, false), &mut store, key, &mut None).unwrap();
    send.send_data(data(3, 20, false), &mut store, key, &mut None).unwrap();
    assert_eq!(store.get(key).send_flow.available(), 30);
    let before = send.connection_available();
    assert_eq!(before, 70);

    let mut task = Some(current_task());
    send.send_reset(Reason::Cancel, &mut store, key, &mut task);
    assert!(task.is_none());
    assert_eq!(store.get(key).state, State::Reset(Reason::Cancel));
    assert_eq!(store.get(key).send_flow.available(), 0);
    assert_eq!(send.connection_available(), before + 30);
    granted_within_bounds(&send, &store);

    assert_eq!(
        drain(&mut send, &mut store, MAX_FRAME),
        vec![Seen::Reset { stream: 3, reason: Reason::Cancel }]
    );
    assert_eq!(send.connection_available(), before + 30);
    assert!(store.get(key).pending_send.is_empty());
}

#[test]
fn reset_is_idempotent() {
    let (mut send, mut store) = client(100);
    let key = open_stream(&mut send, &mut store, 1);
    send.send_reset(Reason::Cancel, &mut store, key, &mut None);
    let mut task = Some(current_task());
    send.send_reset(Reason::InternalError, &mut store, key, &mut task);
    assert!(task.is_some());
    assert_eq!(store.get(key).state, State::Reset(Reason::Cancel));
    assert_eq!(
        drain(&mut send, &mut store, MAX_FRAME),
        vec![Seen::Reset { stream: 1, reason: Reason::Cancel }]
    );
    send.send_reset(Reason::Cancel, &mut store, key, &mut None);
    assert!(drain(&mut send, &mut store, MAX_FRAME).is_empty());
}

#[test]
fn reset_of_a_closed_and_flushed_stream_does_nothing() {
    let mut send = Send::new(&config(Peer::Server, 100, None));
    let mut store = Store::new();
    let key = add_stream(&send, &mut store, 2);
    store.resolve(key).state = State::ReservedLocal;
    send.send_headers(Headers::new(StreamId(2), Vec::new()), &mut store, key, &mut None)
        .unwrap();
    send.send_data(data(2, 5, true), &mut store, key, &mut None).unwrap();
    assert_eq!(store.get(key).state, State::Closed);
    drain(&mut send, &mut store, MAX_FRAME);
    send.send_reset(Reason::Cancel, &mut store, key, &mut None);
    assert_eq!(store.get(key).state, State::Closed);
    assert!(drain(&mut send, &mut store, MAX_FRAME).is_empty());
}

#[test]
fn reset_of_a_closed_stream_with_pending_frames() {
    let mut send = Send::new(&config(Peer::Server, 100, None));
    let mut store = Store::new();
    let key = add_stream(&send, &mut store, 2);
    store.resolve(key).state = State::ReservedLocal;
    send.send_headers(Headers::new(StreamId(2), Vec::new()), &mut store, key, &mut None)
        .unwrap();
    send.send_data(data(2, 5, true), &mut store, key, &mut None).unwrap();
    assert_eq!(store.get(key).state, State::Closed);
    send.send_reset(Reason::Cancel, &mut store, key, &mut None);
    assert_eq!(store.get(key).state, State::Reset(Reason::Cancel));
    assert_eq!(send.connection_available(), 100);
    assert_eq!(
        drain(&mut send, &mut store, MAX_FRAME),
        vec![Seen::Reset { stream: 2, reason: Reason::Cancel }]
    );
}

#[test]
fn reset_hands_capacity_to_a_waiting_stream() {
    let (mut send, mut store) = client(100);
    let a = open_stream(&mut send, &mut store, 1);
    let b = open_stream(&mut send, &mut store, 3);
    send.reserve_capacity(100, &mut store, a);
    send.reserve_capacity(50, &mut store, b);
    assert_eq!(store.get(a).send_flow.available(), 100);
    assert_eq!(store.get(b).send_flow.available(), 0);
    assert!(store.get(b).is_pending_send_capacity);
    send.send_reset(Reason::Cancel, &mut store, a, &mut None);
    assert_eq!(store.get(a).send_flow.available(), 0);
    assert_eq!(store.get(b).send_flow.available(), 50);
    assert_eq!(send.connection_available(), 50);
    assert!(!store.get(b).is_pending_send_capacity);
    granted_within_bounds(&send, &store);
}

#[test]
fn initial_window_shrink() {
    let (mut send, mut store) = client(65535);
    let key = open_stream(&mut send, &mut store, 9);
    drain(&mut send, &mut store, MAX_FRAME);
    send.reserve_capacity(40000, &mut store, key);
    assert_eq!(store.get(key).send_flow.window_size(), 65535);
    assert_eq!(store.get(key).send_flow.available(), 40000);
    assert_eq!(store.get(key).buffered_send_data, 0);

    let mut settings = Settings::new();
    settings.set_initial_window_size(Some(1000));
    assert_eq!(
        send.apply_remote_settings(&settings, &mut store, &mut None),
        Ok(())
    );
    assert_eq!(send.init_window_sz(), 1000);
    assert_eq!(store.get(key).send_flow.window_size(), 1000);
    assert_eq!(store.get(key).send_flow.available(), 1000);
    granted_within_bounds(&send, &store);

    send.send_data(data(9, 500, false), &mut store, key, &mut None).unwrap();
    send.send_data(data(9, 1500, false), &mut store, key, &mut None).unwrap();
    let seen = drain(&mut send, &mut store, MAX_FRAME);
    assert_eq!(data_bytes(&seen, 9).len(), 1000);
    assert_eq!(store.get(key).send_flow.window_size(), 0);
    assert_eq!(store.get(key).send_flow.available(), 0);
    assert!(drain(&mut send, &mut store, MAX_FRAME).is_empty());

    send.recv_stream_window_update(600, &mut store, key, &mut None).unwrap();
    let seen = drain(&mut send, &mut store, MAX_FRAME);
    assert_eq!(data_bytes(&seen, 9).len(), 600);
    granted_within_bounds(&send, &store);
}

#[test]
fn initial_window_shrink_below_zero() {
    let (mut send, mut store) = client(1000);
    let key = open_stream(&mut send, &mut store, 1);
    send.send_data(data(1, 800, false), &mut store, key, &mut None).unwrap();
    drain(&mut send, &mut store, MAX_FRAME);
    assert_eq!(store.get(key).send_flow.window_size(), 200);
    let mut settings = Settings::new();
    settings.set_initial_window_size(Some(500));
    send.apply_remote_settings(&settings, &mut store, &mut None).unwrap();
    assert_eq!(store.get(key).send_flow.window_size(), -300);
    assert_eq!(store.get(key).send_flow.available(), 0);
    granted_within_bounds(&send, &store);
    send.send_data(data(1, 10, false), &mut store, key, &mut None).unwrap();
    assert!(drain(&mut send, &mut store, MAX_FRAME).is_empty());
    send.recv_stream_window_update(305, &mut store, key, &mut None).unwrap();
    assert_eq!(store.get(key).send_flow.window_size(), 5);
    let seen = drain(&mut send, &mut store, MAX_FRAME);
    assert_eq!(data_bytes(&seen, 1).len(), 5);
}

#[test]
fn same_initial_window_twice_changes_nothing() {
    let (mut send, mut store) = client(65535);
    let a = open_stream(&mut send, &mut store, 1);
    let b = open_stream(&mut send, &mut store, 3);
    send.reserve_capacity(3000, &mut store, a);
    let mut settings = Settings::new();
    settings.set_initial_window_size(Some(2000));
    send.apply_remote_settings(&settings, &mut store, &mut None).unwrap();
    let after_first = (
        store.get(a).send_flow,
        store.get(b).send_flow,
        send.connection_available(),
        send.connection_window(),
    );
    assert_eq!(store.get(a).send_flow.window_size(), 2000);
    assert_eq!(store.get(a).send_flow.available(), 2000);
    assert_eq!(store.get(b).send_flow.window_size(), 2000);
    send.apply_remote_settings(&settings, &mut store, &mut None).unwrap();
    let after_second = (
        store.get(a).send_flow,
        store.get(b).send_flow,
        send.connection_available(),
        send.connection_window(),
    );
    assert_eq!(after_first, after_second);
    assert_eq!(send.init_window_sz(), 2000);
}

#[test]
fn initial_window_growth_reaches_every_stream() {
    let (mut send, mut store) = client(1000);
    let a = open_stream(&mut send, &mut store, 1);
    let b = open_stream(&mut send, &mut store, 3);
    let mut settings = Settings::new();
    settings.set_initial_window_size(Some(1500));
    settings.set_max_concurrent_streams(Some(7));
    send.apply_remote_settings(&settings, &mut store, &mut None).unwrap();
    assert_eq!(send.init_window_sz(), 1500);
    assert_eq!(send.max_streams(), Some(7));
    assert_eq!(store.get(a).send_flow.window_size(), 1500);
    assert_eq!(store.get(b).send_flow.window_size(), 1500);
    assert_eq!(store.get(a).state, State::Open);
    granted_within_bounds(&send, &store);
}

#[test]
fn initial_window_growth_resets_a_stream_that_overflows() {
    let (mut send, mut store) = client(1000);
    let a = open_stream(&mut send, &mut store, 1);
    let b = open_stream(&mut send, &mut store, 3);
    drain(&mut send, &mut store, MAX_FRAME);
    send.recv_stream_window_update(MAX_WINDOW_SIZE - 1000, &mut store, a, &mut None)
        .unwrap();
    assert_eq!(store.get(a).send_flow.window_size(), MAX_WINDOW_SIZE);
    let mut settings = Settings::new();
    settings.set_initial_window_size(Some(1001));
    send.apply_remote_settings(&settings, &mut store, &mut None).unwrap();
    assert_eq!(
        store.get(a).state,
        State::Reset(Reason::FlowControlError)
    );
    assert_eq!(store.get(a).requested_send_capacity, 0);
    assert_eq!(store.get(a).buffered_send_data, 0);
    assert_eq!(store.get(b).requested_send_capacity, 0);
    assert_eq!(store.get(a).send_flow.window_size(), MAX_WINDOW_SIZE);
    assert_eq!(store.get(b).send_flow.window_size(), 1001);
    assert_eq!(store.get(b).state, State::Open);
    assert_eq!(
        drain(&mut send, &mut store, MAX_FRAME),
        vec![Seen::Reset { stream: 1, reason: Reason::FlowControlError }]
    );
}

#[test]
fn initial_window_beyond_the_largest_is_refused() {
    let (mut send, mut store) = client(1000);
    let key = open_stream(&mut send, &mut store, 1);
    let mut settings = Settings::new();
    settings.set_initial_window_size(Some(0x8000_0000));
    settings.set_max_concurrent_streams(Some(1));
    assert_eq!(
        send.apply_remote_settings(&settings, &mut store, &mut None),
        Err(ConnectionError::Proto(Reason::FlowControlError))
    );
    assert_eq!(send.init_window_sz(), 1000);
    assert_eq!(send.max_streams(), None);
    assert_eq!(store.get(key).send_flow.window_size(), 1000);
}

#[test]
fn settings_without_a_window_size_only_set_the_limit() {
    let (mut send, mut store) = client(1000);
    let key = open_stream(&mut send, &mut store, 1);
    let mut settings = Settings::new();
    settings.set_max_concurrent_streams(Some(5));
    send.apply_remote_settings(&settings, &mut store, &mut None).unwrap();
    assert_eq!(send.max_streams(), Some(5));
    assert_eq!(send.init_window_sz(), 1000);
    assert_eq!(store.get(key).send_flow.window_size(), 1000);
    send.apply_remote_settings(&Settings::new(), &mut store, &mut None).unwrap();
    assert_eq!(send.max_streams(), Some(5));
}

#[test]
fn zero_length_data_needs_no_capacity() {
    let (mut send, mut store) = client(0);
    let key = open_stream(&mut send, &mut store, 1);
    send.send_data(data(1, 0, true), &mut store, key, &mut None).unwrap();
    assert_eq!(store.get(key).send_flow.available(), 0);
    assert_eq!(
        drain(&mut send, &mut store, MAX_FRAME),
        vec![
            Seen::Headers { stream: 1, end_stream: false },
            Seen::Data { stream: 1, bytes: Vec::new(), end_stream: true },
        ]
    );
    assert_eq!(send.connection_window(), 0);
}

#[test]
fn zero_length_data_behind_blocked_data_waits_its_turn() {
    let (mut send, mut store) = client(10);
    let key = open_stream(&mut send, &mut store, 1);
    send.send_data(data(1, 0, false), &mut store, key, &mut None).unwrap();
    send.send_data(data(1, 30, false), &mut store, key, &mut None).unwrap();
    send.send_data(data(1, 0, true), &mut store, key, &mut None).unwrap();
    let seen = drain(&mut send, &mut store, MAX_FRAME);
    let expected: Vec<u8> = (0..10u8).collect();
    assert_eq!(
        seen,
        vec![
            Seen::Headers { stream: 1, end_stream: false },
            Seen::Data { stream: 1, bytes: Vec::new(), end_stream: false },
            Seen::Data { stream: 1, bytes: expected, end_stream: false },
        ]
    );
}

#[test]
fn large_data_is_cut_to_the_frame_size() {
    let (mut send, mut store) = client(65535);
    let key = open_stream(&mut send, &mut store, 1);
    send.send_data(data(1, 250, true), &mut store, key, &mut None).unwrap();
    let seen = drain(&mut send, &mut store, 100);
    let all: Vec<u8> = (0..250).map(|i| i as u8).collect();
    assert_eq!(
        seen,
        vec![
            Seen::Headers { stream: 1, end_stream: false },
            Seen::Data { stream: 1, bytes: all[..100].to_vec(), end_stream: false },
            Seen::Data { stream: 1, bytes: all[100..200].to_vec(), end_stream: false },
            Seen::Data { stream: 1, bytes: all[200..].to_vec(), end_stream: true },
        ]
    );
    assert_eq!(data_bytes(&seen, 1), all);
    assert_eq!(store.get(key).state, State::HalfClosedLocal);
    assert_eq!(send.connection_window(), 65535 - 250);
    assert_eq!(store.get(key).send_flow.window_size(), 65535 - 250);
    granted_within_bounds(&send, &store);
}

#[test]
fn streams_take_turns_frame_by_frame() {
    let (mut send, mut store) = client(65535);
    let a = open_stream(&mut send, &mut store, 1);
    let b = open_stream(&mut send, &mut store, 3);
    drain(&mut send, &mut store, MAX_FRAME);
    send.send_data(data(1, 20, true), &mut store, a, &mut None).unwrap();
    send.send_data(data(3, 20, true), &mut store, b, &mut None).unwrap();
    let seen = drain(&mut send, &mut store, 10);
    let order: Vec<(u32, bool)> = seen
        .iter()
        .map(|frame| match frame {
            Seen::Data { stream, end_stream, .. } => (*stream, *end_stream),
            _ => panic!("only DATA frames were pending"),
        })
        .collect();
    assert_eq!(order, vec![(1, false), (3, false), (1, true), (3, true)]);
    let all: Vec<u8> = (0..20u8).collect();
    assert_eq!(data_bytes(&seen, 1), all);
    assert_eq!(data_bytes(&seen, 3), all);
}

#[test]
fn a_partly_written_frame_is_taken_back() {
    let (mut send, mut store) = client(65535);
    let key = open_stream(&mut send, &mut store, 1);
    drain(&mut send, &mut store, MAX_FRAME);
    send.send_data(data(1, 10, true), &mut store, key, &mut None).unwrap();
    let event = DrainEvent::Ready { last: None, max_frame_len: MAX_FRAME };
    let mut frame = match send.poll_complete(&mut store, event) {
        DrainAction::Send(Frame::Data(frame)) => frame,
        _ => panic!("expected DATA"),
    };
    assert!(frame.is_end_stream());
    assert_eq!(frame.data.remaining(), 10);
    assert_eq!(frame.data.stream, key);
    frame.data.advance(4);
    assert_eq!(frame.data.remaining(), 6);
    assert_eq!(frame.data.bytes(), &[4, 5, 6, 7, 8, 9]);
    // Only four bytes were written, yet all ten were paid for.
    assert_eq!(store.get(key).send_flow.available(), 0);
    let event = DrainEvent::Ready { last: Some(frame), max_frame_len: MAX_FRAME };
    assert!(matches!(send.poll_complete(&mut store, event), DrainAction::Flush));
    assert!(!store.get(key).pending_send.is_empty());
    assert!(!store.get(key).is_pending_send);

    send.reserve_capacity(10, &mut store, key);
    let seen = drain(&mut send, &mut store, MAX_FRAME);
    assert_eq!(
        seen,
        vec![Seen::Data { stream: 1, bytes: vec![4, 5, 6, 7, 8, 9], end_stream: true }]
    );
}

#[test]
fn flush_with_nothing_to_take_back_is_the_end() {
    let (mut send, mut store) = client(100);
    let event = DrainEvent::Ready { last: None, max_frame_len: MAX_FRAME };
    assert!(matches!(send.poll_complete(&mut store, event), DrainAction::Flush));
    let event = DrainEvent::Flushed { last: None, max_frame_len: MAX_FRAME };
    assert!(matches!(send.poll_complete(&mut store, event), DrainAction::Done));
}

#[test]
fn send_data_on_a_stream_that_is_not_sending() {
    let (mut send, mut store) = client(100);
    let idle = add_stream(&send, &mut store, 1);
    let mut task = Some(current_task());
    assert_eq!(
        send.send_data(data(1, 5, false), &mut store, idle, &mut task),
        Err(ConnectionError::User(User::UnexpectedFrameType))
    );
    assert!(task.is_some());
    assert_eq!(store.get(idle).buffered_send_data, 0);

    let closed = open_stream(&mut send, &mut store, 3);
    send.send_reset(Reason::Cancel, &mut store, closed, &mut None);
    assert_eq!(
        send.send_data(data(3, 5, false), &mut store, closed, &mut None),
        Err(ConnectionError::User(User::InactiveStreamId))
    );

    let half = add_stream(&send, &mut store, 5);
    let mut headers = Headers::new(StreamId(5), Vec::new());
    headers.set_end_stream();
    send.send_headers(headers, &mut store, half, &mut None).unwrap();
    assert_eq!(
        send.send_data(data(5, 5, false), &mut store, half, &mut None),
        Err(ConnectionError::User(User::UnexpectedFrameType))
    );
    assert_eq!(
        send.send_trailers(Headers::trailers(StreamId(5), Vec::new()), &mut store, half, &mut None),
        Err(ConnectionError::User(User::UnexpectedFrameType))
    );
}

#[test]
fn send_data_beyond_what_can_be_buffered_is_refused() {
    let (mut send, mut store) = client(100);
    let key = open_stream(&mut send, &mut store, 1);
    send.send_data(data(1, 20, false), &mut store, key, &mut None).unwrap();
    {
        let stream = store.resolve(key);
        stream.buffered_send_data = MAX_WINDOW_SIZE - 5;
        stream.requested_send_capacity = MAX_WINDOW_SIZE - 5;
    }
    let mut task = Some(current_task());
    assert_eq!(
        send.send_data(data(1, 6, false), &mut store, key, &mut task),
        Err(ConnectionError::User(User::PayloadTooBig))
    );
    assert!(task.is_some());
    assert_eq!(store.get(key).buffered_send_data, MAX_WINDOW_SIZE - 5);
    assert_eq!(store.get(key).send_flow.available(), 20);
    assert_eq!(
        send.send_data(data(1, 5, false), &mut store, key, &mut None),
        Ok(())
    );
    assert_eq!(store.get(key).buffered_send_data, MAX_WINDOW_SIZE);
}

#[test]
fn send_data_with_end_stream_closes_the_sending_half() {
    let (mut send, mut store) = client(100);
    let key = open_stream(&mut send, &mut store, 1);
    send.send_data(data(1, 5, true), &mut store, key, &mut None).unwrap();
    assert_eq!(store.get(key).state, State::HalfClosedLocal);
    assert_eq!(store.get(key).buffered_send_data, 5);
    assert_eq!(store.get(key).requested_send_capacity, 5);
    assert_eq!(
        send.send_data(data(1, 5, false), &mut store, key, &mut None),
        Err(ConnectionError::User(User::UnexpectedFrameType))
    );
}

#[test]
fn send_data_without_capacity_does_not_wake_the_connection() {
    let (mut send, mut store) = client(0);
    let key = open_stream(&mut send, &mut store, 1);
    drain(&mut send, &mut store, MAX_FRAME);
    let mut task = Some(current_task());
    send.send_data(data(1, 5, false), &mut store, key, &mut task).unwrap();
    assert!(task.is_some());
    assert!(!store.get(key).pending_send.is_empty());
    assert!(drain(&mut send, &mut store, MAX_FRAME).is_empty());
    let mut task = Some(current_task());
    send.send_data(data(1, 0, false), &mut store, key, &mut task).unwrap();
    assert!(task.is_some());
}

#[test]
fn reserve_capacity_is_counted_beyond_what_is_buffered() {
    let (mut send, mut store) = client(1000);
    let key = open_stream(&mut send, &mut store, 1);
    send.send_data(data(1, 100, false), &mut store, key, &mut None).unwrap();
    send.reserve_capacity(50, &mut store, key);
    assert_eq!(store.get(key).requested_send_capacity, 150);
    assert_eq!(store.get(key).send_flow.available(), 150);
    assert_eq!(send.connection_available(), 850);
    assert_eq!(send.capacity(&store, key), 50);
    // The same request again, and a lower one, change nothing.
    send.reserve_capacity(50, &mut store, key);
    send.reserve_capacity(10, &mut store, key);
    assert_eq!(store.get(key).requested_send_capacity, 150);
    assert_eq!(store.get(key).send_flow.available(), 150);
    assert_eq!(send.connection_available(), 850);
    granted_within_bounds(&send, &store);
}

#[test]
fn reserve_capacity_is_limited_by_the_stream_window() {
    let (mut send, mut store) = client(100);
    let key = open_stream(&mut send, &mut store, 1);
    send.recv_connection_window_update(WindowUpdate::new(StreamId(0), 900), &mut store)
        .unwrap();
    assert_eq!(send.connection_available(), 1000);
    send.reserve_capacity(60, &mut store, key);
    send.reserve_capacity(200, &mut store, key);
    assert_eq!(store.get(key).requested_send_capacity, 200);
    assert_eq!(store.get(key).send_flow.available(), 100);
    assert_eq!(send.connection_available(), 900);
    assert!(!store.get(key).is_pending_send_capacity);
    send.recv_stream_window_update(50, &mut store, key, &mut None).unwrap();
    assert_eq!(store.get(key).send_flow.window_size(), 150);
    assert_eq!(store.get(key).send_flow.available(), 150);
    assert_eq!(send.connection_available(), 850);
    granted_within_bounds(&send, &store);
}

#[test]
fn capacity_is_granted_first_come_first_served() {
    let (mut send, mut store) = client(100);
    let a = open_stream(&mut send, &mut store, 1);
    let b = open_stream(&mut send, &mut store, 3);
    let c = open_stream(&mut send, &mut store, 5);
    send.reserve_capacity(100, &mut store, a);
    send.reserve_capacity(100, &mut store, b);
    send.reserve_capacity(100, &mut store, c);
    assert_eq!(store.get(a).send_flow.available(), 100);
    assert_eq!(store.get(b).send_flow.available(), 0);
    assert!(store.get(b).is_pending_send_capacity);
    assert!(store.get(c).is_pending_send_capacity);
    send.recv_connection_window_update(WindowUpdate::new(StreamId(0), 130), &mut store)
        .unwrap();
    assert_eq!(store.get(b).send_flow.available(), 100);
    assert_eq!(store.get(c).send_flow.available(), 30);
    assert!(!store.get(b).is_pending_send_capacity);
    assert!(store.get(c).is_pending_send_capacity);
    assert_eq!(send.connection_available(), 0);
    assert_eq!(send.connection_window(), 230);
    granted_within_bounds(&send, &store);
}

#[test]
fn connection_window_update_overflow() {
    let (mut send, mut store) = client(100);
    assert_eq!(
        send.recv_connection_window_update(
            WindowUpdate::new(StreamId(0), MAX_WINDOW_SIZE as u32),
            &mut store
        ),
        Err(ConnectionError::Proto(Reason::FlowControlError))
    );
    assert_eq!(
        send.recv_connection_window_update(WindowUpdate::new(StreamId(0), 0xffff_ffff), &mut store),
        Err(ConnectionError::Proto(Reason::FlowControlError))
    );
    assert_eq!(send.connection_window(), 100);
    assert_eq!(send.connection_available(), 100);
    assert_eq!(
        send.recv_connection_window_update(
            WindowUpdate::new(StreamId(0), MAX_WINDOW_SIZE as u32 - 100),
            &mut store
        ),
        Ok(())
    );
    assert_eq!(send.connection_window(), MAX_WINDOW_SIZE);
    assert_eq!(send.connection_available(), MAX_WINDOW_SIZE);
}

#[test]
fn stream_window_update_overflow_resets_the_stream() {
    let (mut send, mut store) = client(100);
    let key = open_stream(&mut send, &mut store, 1);
    drain(&mut send, &mut store, MAX_FRAME);
    send.reserve_capacity(40, &mut store, key);
    assert_eq!(send.connection_available(), 60);
    assert_eq!(
        send.recv_stream_window_update(MAX_WINDOW_SIZE, &mut store, key, &mut None),
        Ok(())
    );
    assert_eq!(store.get(key).state, State::Reset(Reason::FlowControlError));
    assert_eq!(store.get(key).send_flow.window_size(), 100);
    assert_eq!(store.get(key).send_flow.available(), 0);
    assert_eq!(send.connection_available(), 100);
    assert_eq!(
        drain(&mut send, &mut store, MAX_FRAME),
        vec![Seen::Reset { stream: 1, reason: Reason::FlowControlError }]
    );
}

#[test]
fn poll_capacity_reports_news_once() {
    let (mut send, mut store) = client(100);
    let idle = add_stream(&send, &mut store, 1);
    assert_eq!(send.poll_capacity(&mut store, idle), Ok(Async::Ready(None)));
    let key = open_stream(&mut send, &mut store, 3);
    assert_eq!(send.poll_capacity(&mut store, key), Ok(Async::NotReady));
    send.send_data(data(3, 10, false), &mut store, key, &mut None).unwrap();
    send.reserve_capacity(25, &mut store, key);
    assert_eq!(send.poll_capacity(&mut store, key), Ok(Async::Ready(Some(25))));
    assert_eq!(send.poll_capacity(&mut store, key), Ok(Async::NotReady));
    assert_eq!(send.capacity(&store, key), 25);
}

#[test]
fn capacity_is_never_negative() {
    let (mut send, mut store) = client(10);
    let key = open_stream(&mut send, &mut store, 1);
    send.send_data(data(1, 30, false), &mut store, key, &mut None).unwrap();
    assert_eq!(store.get(key).send_flow.available(), 10);
    assert_eq!(store.get(key).buffered_send_data, 30);
    assert_eq!(send.capacity(&store, key), 0);
}

#[test]
fn granting_capacity_wakes_the_producer() {
    let (mut send, mut store) = client(100);
    let key = open_stream(&mut send, &mut store, 1);
    store.resolve(key).send_task = Some(current_task());
    send.reserve_capacity(10, &mut store, key);
    assert!(store.get(key).send_task.is_none());
    assert!(store.get(key).send_capacity_inc);
}

#[test]
fn dec_num_streams_wakes_the_waiting_opener() {
    let mut send = Send::new(&config(Peer::Client, 100, Some(1)));
    send.open().unwrap();
    assert_eq!(send.poll_open_ready(current_task()), Ok(Async::NotReady));
    send.dec_num_streams();
    assert_eq!(send.num_streams(), 0);
    assert_eq!(send.open(), Ok(StreamId(3)));
}

#[test]
fn a_finished_stream_can_leave_the_store() {
    let (mut send, mut store) = client(100);
    let a = open_stream(&mut send, &mut store, 1);
    let b = open_stream(&mut send, &mut store, 3);
    send.send_data(data(1, 10, true), &mut store, a, &mut None).unwrap();
    send.send_data(data(3, 10, false), &mut store, b, &mut None).unwrap();
    send.send_reset(Reason::Cancel, &mut store, a, &mut None);
    let seen = drain(&mut send, &mut store, MAX_FRAME);
    assert_eq!(seen[0], Seen::Reset { stream: 1, reason: Reason::Cancel });
    assert_eq!(seen.len(), 3);
    assert!(store.get(a).pending_send.is_empty());
    assert!(!store.get(a).is_pending_send);
    assert!(!store.get(a).is_pending_send_capacity);
    let removed = store.remove(a);
    assert_eq!(removed.id, StreamId(1));
    send.send_data(data(3, 10, true), &mut store, b, &mut None).unwrap();
    let seen = drain(&mut send, &mut store, MAX_FRAME);
    assert_eq!(data_bytes(&seen, 3).len(), 10);
    granted_within_bounds(&send, &store);
}

#[test]
fn self_dependency_resets_only_that_stream() {
    let (mut send, mut store) = client(100);
    let seven = open_stream(&mut send, &mut store, 7);
    let nine = open_stream(&mut send, &mut store, 9);
    drain(&mut send, &mut store, MAX_FRAME);

    let mut reader = FramedRead::new();
    // HEADERS on stream 7 with a priority that names stream 7 itself.
    let bytes = [0, 0, 6, 1, 0x24, 0, 0, 0, 7, 0, 0, 0, 7, 16, 0x82];
    match reader.decode_frame(&bytes) {
        Err(ProtoError::Stream { id, reason }) => {
            assert_eq!(id, StreamId(7));
            assert_eq!(reason, Reason::ProtocolError);
            let key = store.find_mut(&id).unwrap();
            assert_eq!(key, seven);
            send.send_reset(reason, &mut store, key, &mut None);
        }
        _ => panic!("expected a stream error"),
    }
    assert_eq!(
        drain(&mut send, &mut store, MAX_FRAME),
        vec![Seen::Reset { stream: 7, reason: Reason::ProtocolError }]
    );

    // The connection goes on: a window update for stream 9 is read and applied.
    let bytes = [0, 0, 4, 8, 0, 0, 0, 0, 9, 0, 0, 0, 50];
    match reader.decode_frame(&bytes) {
        Ok(Some(Decoded::Frame(Frame::WindowUpdate(update)))) => {
            assert_eq!(update.stream_id(), StreamId(9));
            let key = store.find_mut(&update.stream_id()).unwrap();
            send.recv_stream_window_update(update.size_increment() as i32, &mut store, key, &mut None)
                .unwrap();
        }
        _ => panic!("expected WINDOW_UPDATE"),
    }
    assert_eq!(store.get(nine).send_flow.window_size(), 150);
    assert_eq!(store.get(nine).state, State::Open);
    assert_eq!(store.get(seven).state, State::Reset(Reason::ProtocolError));
}

#[test]
fn initial_window_growth_replaces_the_pending_frames_of_a_reset_stream() {
    let (mut send, mut store) = client(1000);
    let a = open_stream(&mut send, &mut store, 1);
    let b = open_stream(&mut send, &mut store, 3);
    drain(&mut send, &mut store, MAX_FRAME);
    send.recv_stream_window_update(MAX_WINDOW_SIZE - 1000, &mut store, a, &mut None)
        .unwrap();
    send.send_data(data(1, 30, false), &mut store, a, &mut None).unwrap();
    send.send_data(data(3, 40, false), &mut store, b, &mut None).unwrap();
    let mut settings = Settings::new();
    settings.set_initial_window_size(Some(1200));
    send.apply_remote_settings(&settings, &mut store, &mut None).unwrap();
    assert_eq!(store.get(a).requested_send_capacity, 30);
    assert_eq!(store.get(a).buffered_send_data, 30);
    assert_eq!(store.get(b).requested_send_capacity, 40);
    assert_eq!(store.get(b).buffered_send_data, 40);
    assert_eq!(store.get(b).send_flow.window_size(), 1200);
    let seen = drain(&mut send, &mut store, MAX_FRAME);
    assert_eq!(seen.len(), 2);
    assert_eq!(seen[0], Seen::Reset { stream: 1, reason: Reason::FlowControlError });
    assert_eq!(data_bytes(&seen, 3).len(), 40);
    assert!(data_bytes(&seen, 1).is_empty());
}

#[test]
fn sending_leaves_the_receive_queues_alone() {
    let (mut send, mut store) = client(100);
    let a = open_stream(&mut send, &mut store, 1);
    let b = open_stream(&mut send, &mut store, 3);
    let c = open_stream(&mut send, &mut store, 5);
    let mut accept: Queue<NextAccept> = Queue::new();
    let mut update: Queue<NextWindowUpdate> = Queue::new();
    accept.push(&mut store, b);
    accept.push(&mut store, a);
    update.push(&mut store, c);
    update.push(&mut store, b);

    send.send_data(data(1, 80, false), &mut store, a, &mut None).unwrap();
    send.send_data(data(3, 80, true), &mut store, b, &mut None).unwrap();
    send.reserve_capacity(10, &mut store, c);
    assert_eq!(send.poll_capacity(&mut store, a), Ok(Async::Ready(Some(0))));
    drain(&mut send, &mut store, 16);
    send.send_reset(Reason::Cancel, &mut store, a, &mut None);
    send.recv_connection_window_update(WindowUpdate::new(StreamId(0), 500), &mut store)
        .unwrap();
    send.recv_stream_window_update(7, &mut store, c, &mut None).unwrap();
    let mut settings = Settings::new();
    settings.set_initial_window_size(Some(50));
    send.apply_remote_settings(&settings, &mut store, &mut None).unwrap();
    settings.set_initial_window_size(Some(70));
    send.apply_remote_settings(&settings, &mut store, &mut None).unwrap();
    send.send_trailers(Headers::trailers(StreamId(5), Vec::new()), &mut store, c, &mut None)
        .unwrap();
    drain(&mut send, &mut store, MAX_FRAME);

    assert!(store.get(a).is_pending_accept);
    assert!(store.get(b).is_pending_accept);
    assert!(!store.get(c).is_pending_accept);
    assert_eq!(store.get(b).next_pending_accept, Some(a));
    assert_eq!(store.get(a).next_pending_accept, None);
    assert!(store.get(b).is_pending_window_update);
    assert!(store.get(c).is_pending_window_update);
    assert!(!store.get(a).is_pending_window_update);
    assert_eq!(store.get(c).next_window_update, Some(b));
    assert_eq!(accept.pop(&mut store), Some(b));
    assert_eq!(accept.pop(&mut store), Some(a));
    assert_eq!(accept.pop(&mut store), None);
    assert_eq!(update.pop(&mut store), Some(c));
    assert_eq!(update.pop(&mut store), Some(b));
    assert_eq!(update.pop(&mut store), None);
}

#[test]
fn nothing_to_take_back_changes_nothing() {
    let (mut send, mut store) = client(100);
    let key = open_stream(&mut send, &mut store, 1);
    drain(&mut send, &mut store, MAX_FRAME);
    send.send_data(data(1, 10, false), &mut store, key, &mut None).unwrap();
    let event = DrainEvent::Ready { last: None, max_frame_len: MAX_FRAME };
    let mut frame = match send.poll_complete(&mut store, event) {
        DrainAction::Send(Frame::Data(frame)) => frame,
        _ => panic!("expected DATA"),
    };
    let written = frame.data.remaining();
    frame.data.advance(written);
    let before = (
        store.get(key).send_flow,
        store.get(key).state,
        store.get(key).is_pending_send,
        store.get(key).is_pending_send_capacity,
        store.get(key).pending_send.is_empty(),
        send.connection_available(),
        send.connection_window(),
    );
    // The whole frame was written: a flush with it in hand ends the drain.
    let event = DrainEvent::Flushed { last: Some(frame), max_frame_len: MAX_FRAME };
    assert!(matches!(send.poll_complete(&mut store, event), DrainAction::Done));
    let after = (
        store.get(key).send_flow,
        store.get(key).state,
        store.get(key).is_pending_send,
        store.get(key).is_pending_send_capacity,
        store.get(key).pending_send.is_empty(),
        send.connection_available(),
        send.connection_window(),
    );
    assert_eq!(before, after);
}

#[test]
fn a_reset_stream_that_waits_for_capacity_is_served_in_its_turn() {
    let (mut send, mut store) = client(100);
    let a = open_stream(&mut send, &mut store, 1);
    drain(&mut send, &mut store, MAX_FRAME);
    send.recv_stream_window_update(MAX_WINDOW_SIZE - 100, &mut store, a, &mut None)
        .unwrap();
    send.reserve_capacity(150, &mut store, a);
    assert_eq!(store.get(a).send_flow.available(), 100);
    assert!(store.get(a).is_pending_send_capacity);
    assert_eq!(send.connection_available(), 0);

    let mut settings = Settings::new();
    settings.set_initial_window_size(Some(101));
    send.apply_remote_settings(&settings, &mut store, &mut None).unwrap();
    assert_eq!(store.get(a).state, State::Reset(Reason::FlowControlError));
    assert_eq!(store.get(a).send_flow.window_size(), MAX_WINDOW_SIZE);
    assert_eq!(store.get(a).requested_send_capacity, 150);
    // What the reset gave back went to the head of the capacity queue,
    // which was this stream.
    assert_eq!(store.get(a).send_flow.available(), 100);
    assert_eq!(send.connection_available(), 0);
    granted_within_bounds(&send, &store);
    assert_eq!(
        drain(&mut send, &mut store, MAX_FRAME),
        vec![Seen::Reset { stream: 1, reason: Reason::FlowControlError }]
    );
}
