//! The record that the engine keeps for each stream.

use crate::frame::StreamId;
use crate::proto::flow_control::{spec_floor_zero, FlowControl, WindowSize};
use crate::proto::state::State;
use crate::proto::streams::buffer::Deque;
use crate::proto::streams::store::{Key, Next};
use futures::task::Task;
use vstd::prelude::*;

verus! {

/// The handle of a parked task, from the `futures` crate. Nothing is known
/// of what it holds.
#[verifier::external_type_specification]
#[verifier::external_body]
pub struct ExTask(futures::task::Task);

/// Calls `Task::notify` of the `futures` crate, which schedules the task
/// for another poll. Nothing is claimed of its effect.
#[verifier::external_body]
pub(crate) fn wake(task: Task) {
    task.notify()
}

/// The queues that a stream can be a member of.
#[derive(Debug, Clone, Copy, PartialEq, Eq, Structural)]
pub enum QueueId {
    /// Streams with frames ready to be written.
    Send,
    /// Streams waiting for capacity of the connection window.
    SendCapacity,
    /// Streams waiting to be accepted by the application.
    Accept,
    /// Streams waiting to send a window update.
    WindowUpdate,
}

/// What is known of the length of a message body that is being received.
#[derive(Debug, Clone, Copy, PartialEq, Eq, Structural)]
pub enum ContentLength {
    /// The message has no content-length header.
    Omitted,
    /// The message answers a HEAD request and has no body.
    Head,
    /// This many bytes of the announced length are still to come.
    Remaining(u64),
}

/// One stream of a connection.
pub struct Stream {
    /// The stream identifier.
    pub id: StreamId,
    /// The protocol state.
    pub state: State,
    /// The stream behind this one in the queue of streams ready to send.
    pub next_pending_send: Option<Key>,
    /// True while the stream is in the queue of streams ready to send.
    pub is_pending_send: bool,
    /// Flow control of what is sent.
    pub send_flow: FlowControl,
    /// How much send capacity the producer has asked for.
    pub requested_send_capacity: WindowSize,
    /// Payload bytes that were handed over for sending.
    pub buffered_send_data: WindowSize,
    /// Task to notify when send capacity grows.
    pub send_task: Option<Task>,
    /// Frames of this stream that wait to be written.
    pub pending_send: Deque,
    /// The stream behind this one in the queue for connection capacity.
    pub next_pending_send_capacity: Option<Key>,
    /// True while the stream is in the queue for connection capacity.
    pub is_pending_send_capacity: bool,
    /// Set when send capacity was granted and not yet reported.
    pub send_capacity_inc: bool,
    /// The stream behind this one in the queue of streams to accept.
    pub next_pending_accept: Option<Key>,
    /// True while the stream is in the queue of streams to accept.
    pub is_pending_accept: bool,
    /// Flow control of what is received.
    pub recv_flow: FlowControl,
    /// Received bytes that the application has not released yet.
    pub in_flight_recv_data: WindowSize,
    /// The stream behind this one in the queue for window updates.
    pub next_window_update: Option<Key>,
    /// True while the stream is in the queue for window updates.
    pub is_pending_window_update: bool,
    /// Task to notify when frames can be read.
    pub recv_task: Option<Task>,
    /// Checks the received body against its announced length.
    pub content_length: ContentLength,
}

/// A stream without its queue links and without the handle of its frame
/// queue: what the sending operations are specified over.
pub ghost struct Record {
    pub id: StreamId,
    pub state: State,
    pub send_flow: FlowControl,
    pub requested_send_capacity: WindowSize,
    pub buffered_send_data: WindowSize,
    pub send_task: Option<Task>,
    pub send_capacity_inc: bool,
    pub recv_flow: FlowControl,
    pub in_flight_recv_data: WindowSize,
    pub recv_task: Option<Task>,
    pub content_length: ContentLength,
}

impl Record {
    /// Both windows are well formed, and no more is granted for sending
    /// than was asked for.
    pub open spec fn wf(self) -> bool {
        &&& self.send_flow.wf()
        &&& self.recv_flow.wf()
        &&& 0 <= self.buffered_send_data
        &&& self.send_flow.available <= self.requested_send_capacity
    }
}

impl ContentLength {
    pub open spec fn spec_is_head(&self) -> bool {
        *self is Head
    }

    #[verifier::when_used_as_spec(spec_is_head)]
    pub fn is_head(&self) -> (r: bool)
        ensures
            r == (*self is Head),
    {
        match *self {
            ContentLength::Head => true,
            _ => false,
        }
    }

    /// What is left of the announced length after `len` more bytes, or the
    /// refusal of bytes that were not announced.
    pub open spec fn spec_dec(self, len: int) -> Result<ContentLength, ()> {
        match self {
            ContentLength::Remaining(rem) => if len <= rem {
                Ok(ContentLength::Remaining((rem - len) as u64))
            } else {
                Err(())
            },
            ContentLength::Head => Err(()),
            ContentLength::Omitted => Ok(ContentLength::Omitted),
        }
    }
}

impl Stream {
    pub open spec fn record(self) -> Record {
        Record {
            id: self.id,
            state: self.state,
            send_flow: self.send_flow,
            requested_send_capacity: self.requested_send_capacity,
            buffered_send_data: self.buffered_send_data,
            send_task: self.send_task,
            send_capacity_inc: self.send_capacity_inc,
            recv_flow: self.recv_flow,
            in_flight_recv_data: self.in_flight_recv_data,
            recv_task: self.recv_task,
            content_length: self.content_length,
        }
    }

    /// The stream's link in the queue `q`.
    pub open spec fn next_in(self, q: QueueId) -> Option<Key> {
        match q {
            QueueId::Send => self.next_pending_send,
            QueueId::SendCapacity => self.next_pending_send_capacity,
            QueueId::Accept => self.next_pending_accept,
            QueueId::WindowUpdate => self.next_window_update,
        }
    }

    /// The stream's membership flag for the queue `q`.
    pub open spec fn queued_in(self, q: QueueId) -> bool {
        match q {
            QueueId::Send => self.is_pending_send,
            QueueId::SendCapacity => self.is_pending_send_capacity,
            QueueId::Accept => self.is_pending_accept,
            QueueId::WindowUpdate => self.is_pending_window_update,
        }
    }

    pub open spec fn with_next(self, q: QueueId, key: Option<Key>) -> Stream {
        match q {
            QueueId::Send => Stream { next_pending_send: key, ..self },
            QueueId::SendCapacity => Stream { next_pending_send_capacity: key, ..self },
            QueueId::Accept => Stream { next_pending_accept: key, ..self },
            QueueId::WindowUpdate => Stream { next_window_update: key, ..self },
        }
    }

    pub open spec fn with_queued(self, q: QueueId, val: bool) -> Stream {
        match q {
            QueueId::Send => Stream { is_pending_send: val, ..self },
            QueueId::SendCapacity => Stream { is_pending_send_capacity: val, ..self },
            QueueId::Accept => Stream { is_pending_accept: val, ..self },
            QueueId::WindowUpdate => Stream { is_pending_window_update: val, ..self },
        }
    }

    /// What holds of every stream between two operations.
    pub open spec fn wf(self) -> bool {
        self.record().wf()
    }

    /// A new idle stream whose windows have the given initial sizes. The
    /// receive window is granted in full; of the send window nothing is
    /// granted yet.
    pub fn new(id: StreamId, init_send_window: WindowSize, init_recv_window: WindowSize) -> (stream:
        Stream)
        requires
            0 <= init_send_window,
            0 <= init_recv_window,
        ensures
            stream.wf(),
            stream.record() == (Record {
                id,
                state: State::Idle,
                send_flow: FlowControl { window_size: init_send_window, available: 0 },
                requested_send_capacity: 0,
                buffered_send_data: 0,
                send_task: None::<Task>,
                send_capacity_inc: false,
                recv_flow: FlowControl {
                    window_size: init_recv_window,
                    available: init_recv_window,
                },
                in_flight_recv_data: 0,
                recv_task: None::<Task>,
                content_length: ContentLength::Omitted,
            }),
            forall|q: QueueId| !stream.queued_in(q) && stream.next_in(q) is None,
            stream.pending_send.chain().len() == 0,
            stream.pending_send.spec_indices() is None,
    {
        let mut send_flow = FlowControl::new();
        let mut recv_flow = FlowControl::new();
        let grown = recv_flow.inc_window(init_recv_window);
        recv_flow.assign_capacity(init_recv_window);
        let grown = send_flow.inc_window(init_send_window);
        Stream {
            id,
            state: State::new(),
            next_pending_send: None,
            is_pending_send: false,
            send_flow,
            requested_send_capacity: 0,
            buffered_send_data: 0,
            send_task: None,
            pending_send: Deque::new(),
            next_pending_send_capacity: None,
            is_pending_send_capacity: false,
            send_capacity_inc: false,
            next_pending_accept: None,
            is_pending_accept: false,
            recv_flow,
            in_flight_recv_data: 0,
            next_window_update: None,
            is_pending_window_update: false,
            recv_task: None,
            content_length: ContentLength::Omitted,
        }
    }

    /// Grants the stream `capacity` more of its send window, and wakes the
    /// producer if more is granted now than is buffered.
    pub fn assign_capacity(&mut self, capacity: WindowSize)
        requires
            old(self).send_flow.wf(),
            0 <= capacity,
            old(self).send_flow.available + capacity <= spec_floor_zero(
                old(self).send_flow.window_size as int,
            ),
        ensures
            *final(self) == (Stream {
                send_capacity_inc: true,
                send_flow: FlowControl {
                    available: (old(self).send_flow.available + capacity) as WindowSize,
                    ..old(self).send_flow
                },
                send_task: if old(self).send_flow.available + capacity > old(
                    self,
                ).buffered_send_data {
                    None::<Task>
                } else {
                    old(self).send_task
                },
                ..*old(self)
            }),
    {
        self.send_capacity_inc = true;
        self.send_flow.assign_capacity(capacity);
        if self.send_flow.available() > self.buffered_send_data {
            self.notify_send();
        }
    }

    /// Counts `len` received bytes against the announced length. Fails,
    /// changing nothing, where more bytes arrive than were announced, or any
    /// at all for a message without a body.
    pub fn dec_content_length(&mut self, len: usize) -> (res: Result<(), ()>)
        ensures
            match old(self).content_length.spec_dec(len as int) {
                Ok(left) => res is Ok && *final(self) == (Stream {
                    content_length: left,
                    ..*old(self)
                }),
                Err(_) => res is Err && *final(self) == *old(self),
            },
    {
        match self.content_length {
            ContentLength::Remaining(rem) => {
                if len as u64 <= rem {
                    self.content_length = ContentLength::Remaining(rem - len as u64);
                } else {
                    return Err(());
                }
            },
            ContentLength::Head => {
                return Err(());
            },
            ContentLength::Omitted => {},
        }
        Ok(())
    }

    /// Succeeds unless announced bytes are still missing.
    pub fn ensure_content_length_zero(&self) -> (res: Result<(), ()>)
        ensures
            res is Err <==> (self.content_length matches ContentLength::Remaining(rem) && rem
                != 0),
    {
        match self.content_length {
            ContentLength::Remaining(rem) => if rem == 0 {
                Ok(())
            } else {
                Err(())
            },
            _ => Ok(()),
        }
    }

    /// Wakes the task that waits for send capacity, if one is parked.
    pub fn notify_send(&mut self)
        ensures
            *final(self) == (Stream { send_task: None::<Task>, ..*old(self) }),
    {
        if let Some(task) = self.send_task.take() {
            wake(task);
        }
    }

    /// Wakes the task that waits for received frames, if one is parked.
    pub fn notify_recv(&mut self)
        ensures
            *final(self) == (Stream { recv_task: None::<Task>, ..*old(self) }),
    {
        if let Some(task) = self.recv_task.take() {
            wake(task);
        }
    }
}

/// Links of the queue of streams to accept.
#[derive(Debug)]
pub struct NextAccept;

/// Links of the queue of streams ready to send.
#[derive(Debug)]
pub struct NextSend;

/// Links of the queue of streams waiting for connection capacity.
#[derive(Debug)]
pub struct NextSendCapacity;

/// Links of the queue of streams waiting to send a window update.
#[derive(Debug)]
pub struct NextWindowUpdate;

impl Next for NextAccept {
    open spec fn id() -> QueueId {
        QueueId::Accept
    }

    fn next(stream: &Stream) -> Option<Key> {
        stream.next_pending_accept
    }

    fn set_next(stream: &mut Stream, key: Option<Key>) {
        stream.next_pending_accept = key;
    }

    fn take_next(stream: &mut Stream) -> Option<Key> {
        stream.next_pending_accept.take()
    }

    fn is_queued(stream: &Stream) -> bool {
        stream.is_pending_accept
    }

    fn set_queued(stream: &mut Stream, val: bool) {
        stream.is_pending_accept = val;
    }
}

impl Next for NextSend {
    open spec fn id() -> QueueId {
        QueueId::Send
    }

    fn next(stream: &Stream) -> Option<Key> {
        stream.next_pending_send
    }

    fn set_next(stream: &mut Stream, key: Option<Key>) {
        stream.next_pending_send = key;
    }

    fn take_next(stream: &mut Stream) -> Option<Key> {
        stream.next_pending_send.take()
    }

    fn is_queued(stream: &Stream) -> bool {
        stream.is_pending_send
    }

    fn set_queued(stream: &mut Stream, val: bool) {
        stream.is_pending_send = val;
    }
}

impl Next for NextSendCapacity {
    open spec fn id() -> QueueId {
        QueueId::SendCapacity
    }

    fn next(stream: &Stream) -> Option<Key> {
        stream.next_pending_send_capacity
    }

    fn set_next(stream: &mut Stream, key: Option<Key>) {
        stream.next_pending_send_capacity = key;
    }

    fn take_next(stream: &mut Stream) -> Option<Key> {
        stream.next_pending_send_capacity.take()
    }

    fn is_queued(stream: &Stream) -> bool {
        stream.is_pending_send_capacity
    }

    fn set_queued(stream: &mut Stream, val: bool) {
        stream.is_pending_send_capacity = val;
    }
}

impl Next for NextWindowUpdate {
    open spec fn id() -> QueueId {
        QueueId::WindowUpdate
    }

    fn next(stream: &Stream) -> Option<Key> {
        stream.next_window_update
    }

    fn set_next(stream: &mut Stream, key: Option<Key>) {
        stream.next_window_update = key;
    }

    fn take_next(stream: &mut Stream) -> Option<Key> {
        stream.next_window_update.take()
    }

    fn is_queued(stream: &Stream) -> bool {
        stream.is_pending_window_update
    }

    fn set_queued(stream: &mut Stream, val: bool) {
        stream.is_pending_window_update = val;
    }
}

} // verus!
