use h2::frame::{Frame, Payload, Reset, StreamId};
use h2::error::Reason;
use h2::proto::streams::{
    Buffer, ContentLength, Deque, Entry, Key, NextAccept, NextSend, NextSendCapacity,
    NextWindowUpdate, Queue, Store, Stream,
};
use h2::proto::State;

fn stream(id: u32) -> Stream {
    Stream::new(StreamId(id), 65535, 65535)
}

fn store_of(ids: &[u32]) -> (Store, Vec<Key>) {
    let mut store = Store::new();
    let mut keys = Vec::new();
    for id in ids.iter() {
        keys.push(store.insert(StreamId(*id), stream(*id)));
    }
    (store, keys)
}

#[test]
fn new_stream_record() {
    let stream = Stream::new(StreamId(7), 1000, 2000);
    assert_eq!(stream.id, StreamId(7));
    assert_eq!(stream.state, State::Idle);
    assert_eq!(stream.send_flow.window_size(), 1000);
    assert_eq!(stream.send_flow.available(), 0);
    assert_eq!(stream.recv_flow.window_size(), 2000);
    assert_eq!(stream.recv_flow.available(), 2000);
    assert_eq!(stream.requested_send_capacity, 0);
    assert_eq!(stream.buffered_send_data, 0);
    assert_eq!(stream.in_flight_recv_data, 0);
    assert!(!stream.send_capacity_inc);
    assert!(!stream.is_pending_send);
    assert!(!stream.is_pending_send_capacity);
    assert!(!stream.is_pending_accept);
    assert!(!stream.is_pending_window_update);
    assert_eq!(stream.next_pending_send, None);
    assert_eq!(stream.next_pending_send_capacity, None);
    assert_eq!(stream.next_pending_accept, None);
    assert_eq!(stream.next_window_update, None);
    assert!(stream.send_task.is_none());
    assert!(stream.recv_task.is_none());
    assert!(stream.pending_send.is_empty());
    assert_eq!(stream.content_length, ContentLength::Omitted);
}

#[test]
fn stream_assign_capacity_sets_the_note() {
    let mut stream = Stream::new(StreamId(1), 100, 100);
    stream.assign_capacity(40);
    assert_eq!(stream.send_flow.available(), 40);
    assert_eq!(stream.send_flow.window_size(), 100);
    assert!(stream.send_capacity_inc);
}

#[test]
fn content_length_is_counted_down() {
    let mut stream = stream(1);
    assert_eq!(stream.dec_content_length(10), Ok(()));
    assert_eq!(stream.content_length, ContentLength::Omitted);
    assert_eq!(stream.ensure_content_length_zero(), Ok(()));

    stream.content_length = ContentLength::Remaining(10);
    assert_eq!(stream.ensure_content_length_zero(), Err(()));
    assert_eq!(stream.dec_content_length(4), Ok(()));
    assert_eq!(stream.content_length, ContentLength::Remaining(6));
    assert_eq!(stream.dec_content_length(7), Err(()));
    assert_eq!(stream.content_length, ContentLength::Remaining(6));
    assert_eq!(stream.dec_content_length(6), Ok(()));
    assert_eq!(stream.content_length, ContentLength::Remaining(0));
    assert_eq!(stream.ensure_content_length_zero(), Ok(()));

    stream.content_length = ContentLength::Head;
    assert_eq!(stream.dec_content_length(0), Err(()));
    assert_eq!(stream.ensure_content_length_zero(), Ok(()));
}

#[test]
fn content_length_is_head() {
    assert!(ContentLength::Head.is_head());
    assert!(!ContentLength::Omitted.is_head());
    assert!(!ContentLength::Remaining(0).is_head());
}

#[test]
fn notify_without_a_task_does_nothing() {
    let mut stream = stream(1);
    stream.notify_send();
    stream.notify_recv();
    assert!(stream.send_task.is_none());
    assert!(stream.recv_task.is_none());
}

#[test]
fn store_insert_and_find() {
    let mut store = Store::new();
    assert_eq!(store.find_mut(&StreamId(1)), None);
    let a = store.insert(StreamId(1), stream(1));
    let b = store.insert(StreamId(3), stream(3));
    assert_ne!(a, b);
    assert_eq!(store.find_mut(&StreamId(1)), Some(a));
    assert_eq!(store.find_mut(&StreamId(3)), Some(b));
    assert_eq!(store.find_mut(&StreamId(5)), None);
    assert_eq!(store.get(a).id, StreamId(1));
    assert_eq!(store.get(b).id, StreamId(3));
}

#[test]
fn store_resolve_changes_only_that_stream() {
    let (mut store, keys) = store_of(&[1, 3]);
    store.resolve(keys[0]).buffered_send_data = 17;
    store.resolve(keys[0]).state = State::Open;
    assert_eq!(store.get(keys[0]).buffered_send_data, 17);
    assert_eq!(store.get(keys[0]).state, State::Open);
    assert_eq!(store.get(keys[1]).buffered_send_data, 0);
    assert_eq!(store.get(keys[1]).state, State::Idle);
}

#[test]
fn store_find_entry() {
    let mut store = Store::new();
    let key = match store.find_entry(StreamId(5)) {
        Entry::Vacant(entry) => entry.insert(&mut store, stream(5)),
        Entry::Occupied(_) => panic!("nothing was inserted yet"),
    };
    match store.find_entry(StreamId(5)) {
        Entry::Occupied(entry) => assert_eq!(entry.key(), key),
        Entry::Vacant(_) => panic!("the stream was inserted"),
    }
    assert!(matches!(store.find_entry(StreamId(7)), Entry::Vacant(_)));
    assert_eq!(store.get(key).id, StreamId(5));
}

#[test]
fn store_keys_lists_every_stream_once() {
    let (store, keys) = store_of(&[1, 3, 5, 7]);
    let mut listed = store.keys();
    assert_eq!(listed.len(), 4);
    for key in keys.iter() {
        assert_eq!(listed.iter().filter(|k| *k == key).count(), 1);
    }
    listed.clear();
    assert_eq!(Store::new().keys(), listed);
}

#[test]
fn store_remove_frees_key_and_identifier() {
    let (mut store, keys) = store_of(&[1, 3, 5]);
    let removed = store.remove(keys[1]);
    assert_eq!(removed.id, StreamId(3));
    assert_eq!(store.find_mut(&StreamId(3)), None);
    assert_eq!(store.find_mut(&StreamId(1)), Some(keys[0]));
    assert_eq!(store.find_mut(&StreamId(5)), Some(keys[2]));
    assert_eq!(store.keys().len(), 2);
    let again = store.insert(StreamId(3), stream(3));
    assert_eq!(store.find_mut(&StreamId(3)), Some(again));
    assert_eq!(store.get(again).id, StreamId(3));
    assert_eq!(store.keys().len(), 3);
}

#[test]
fn queue_is_first_in_first_out() {
    let (mut store, keys) = store_of(&[1, 3, 5]);
    let mut queue: Queue<NextSend> = Queue::new();
    assert!(queue.is_empty());
    assert_eq!(queue.pop(&mut store), None);
    assert!(queue.push(&mut store, keys[1]));
    assert!(queue.push(&mut store, keys[0]));
    assert!(queue.push(&mut store, keys[2]));
    assert!(!queue.is_empty());
    assert_eq!(queue.pop(&mut store), Some(keys[1]));
    assert_eq!(queue.pop(&mut store), Some(keys[0]));
    assert_eq!(queue.pop(&mut store), Some(keys[2]));
    assert_eq!(queue.pop(&mut store), None);
    assert!(queue.is_empty());
}

#[test]
fn queue_holds_a_stream_once() {
    let (mut store, keys) = store_of(&[1, 3]);
    let mut queue: Queue<NextSendCapacity> = Queue::new();
    assert!(queue.push(&mut store, keys[0]));
    assert!(!queue.push(&mut store, keys[0]));
    assert!(queue.push(&mut store, keys[1]));
    assert!(!queue.push(&mut store, keys[0]));
    assert!(!queue.push(&mut store, keys[1]));
    assert_eq!(queue.pop(&mut store), Some(keys[0]));
    assert!(queue.push(&mut store, keys[0]));
    assert_eq!(queue.pop(&mut store), Some(keys[1]));
    assert_eq!(queue.pop(&mut store), Some(keys[0]));
    assert_eq!(queue.pop(&mut store), None);
}

#[test]
fn queue_flag_is_set_exactly_on_the_streams_reached_from_the_head() {
    let (mut store, keys) = store_of(&[1, 3, 5, 7]);
    let mut queue: Queue<NextSend> = Queue::new();
    queue.push(&mut store, keys[2]);
    queue.push(&mut store, keys[0]);
    queue.push(&mut store, keys[3]);

    let mut reached = Vec::new();
    let mut at = Some(keys[2]);
    while let Some(key) = at {
        reached.push(key);
        at = store.get(key).next_pending_send;
    }
    assert_eq!(reached, vec![keys[2], keys[0], keys[3]]);
    for key in keys.iter() {
        assert_eq!(store.get(*key).is_pending_send, reached.contains(key));
    }

    assert_eq!(queue.pop(&mut store), Some(keys[2]));
    assert!(!store.get(keys[2]).is_pending_send);
    assert_eq!(store.get(keys[2]).next_pending_send, None);
    let mut reached = Vec::new();
    let mut at = Some(keys[0]);
    while let Some(key) = at {
        reached.push(key);
        at = store.get(key).next_pending_send;
    }
    assert_eq!(reached, vec![keys[0], keys[3]]);
    for key in keys.iter() {
        assert_eq!(store.get(*key).is_pending_send, reached.contains(key));
    }
}

#[test]
fn queues_of_different_kinds_do_not_interfere() {
    let (mut store, keys) = store_of(&[1, 3]);
    let mut send: Queue<NextSend> = Queue::new();
    let mut capacity: Queue<NextSendCapacity> = Queue::new();
    let mut accept: Queue<NextAccept> = Queue::new();
    let mut update: Queue<NextWindowUpdate> = Queue::new();
    assert!(send.push(&mut store, keys[0]));
    assert!(capacity.push(&mut store, keys[0]));
    assert!(accept.push(&mut store, keys[1]));
    assert!(update.push(&mut store, keys[1]));
    assert!(update.push(&mut store, keys[0]));
    assert!(store.get(keys[0]).is_pending_send);
    assert!(store.get(keys[0]).is_pending_send_capacity);
    assert!(!store.get(keys[0]).is_pending_accept);
    assert!(store.get(keys[0]).is_pending_window_update);
    assert!(store.get(keys[1]).is_pending_accept);
    assert_eq!(store.get(keys[1]).next_window_update, Some(keys[0]));
    assert_eq!(send.pop(&mut store), Some(keys[0]));
    assert!(store.get(keys[0]).is_pending_send_capacity);
    assert_eq!(capacity.pop(&mut store), Some(keys[0]));
    assert_eq!(accept.pop(&mut store), Some(keys[1]));
    assert_eq!(update.pop(&mut store), Some(keys[1]));
    assert_eq!(update.pop(&mut store), Some(keys[0]));
    assert_eq!(update.pop(&mut store), None);
}

#[test]
fn queue_take_detaches_the_list() {
    let (mut store, keys) = store_of(&[1, 3]);
    let mut queue: Queue<NextAccept> = Queue::new();
    queue.push(&mut store, keys[0]);
    queue.push(&mut store, keys[1]);
    let mut taken = queue.take();
    assert!(queue.is_empty());
    assert!(!taken.is_empty());
    assert_eq!(taken.pop(&mut store), Some(keys[0]));
    assert_eq!(taken.pop(&mut store), Some(keys[1]));
    assert_eq!(taken.pop(&mut store), None);
}

fn reset(id: u32) -> Frame<Payload> {
    Frame::Reset(Reset::new(StreamId(id), Reason::Cancel))
}

fn id_of(frame: Option<Frame<Payload>>) -> Option<u32> {
    match frame {
        Some(Frame::Reset(reset)) => Some(reset.stream_id().as_u32()),
        Some(_) => panic!("only RST_STREAM frames were queued"),
        None => None,
    }
}

#[test]
fn deques_share_one_buffer() {
    let mut buffer = Buffer::new();
    let mut a = Deque::new();
    let mut b = Deque::new();
    assert!(a.is_empty());
    a.push_back(&mut buffer, reset(1));
    b.push_back(&mut buffer, reset(10));
    a.push_back(&mut buffer, reset(2));
    b.push_back(&mut buffer, reset(20));
    a.push_front(&mut buffer, reset(0));
    assert!(!a.is_empty());
    assert_eq!(id_of(a.pop_front(&mut buffer)), Some(0));
    assert_eq!(id_of(b.pop_front(&mut buffer)), Some(10));
    assert_eq!(id_of(a.pop_front(&mut buffer)), Some(1));
    b.push_back(&mut buffer, reset(30));
    assert_eq!(id_of(a.pop_front(&mut buffer)), Some(2));
    assert_eq!(id_of(a.pop_front(&mut buffer)), None);
    assert!(a.is_empty());
    assert_eq!(id_of(b.pop_front(&mut buffer)), Some(20));
    assert_eq!(id_of(b.pop_front(&mut buffer)), Some(30));
    assert_eq!(id_of(b.pop_front(&mut buffer)), None);
    assert!(b.is_empty());
}

#[test]
fn deque_push_front_on_empty() {
    let mut buffer = Buffer::new();
    let mut deque = Deque::new();
    deque.push_front(&mut buffer, reset(1));
    deque.push_back(&mut buffer, reset(2));
    assert_eq!(id_of(deque.pop_front(&mut buffer)), Some(1));
    assert_eq!(id_of(deque.pop_front(&mut buffer)), Some(2));
    assert!(deque.is_empty());
}
