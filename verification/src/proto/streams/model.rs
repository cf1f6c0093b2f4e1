//! The sending side as a value: what the engine's operations do to the
//! streams, their pending frames, the two scheduling queues and the
//! connection window, without the arenas and links that hold them.

use crate::error::{ConnectionError, Reason, User};
use crate::frame::{Data, Frame, Headers, Payload, Reset};
use crate::proto::flow_control::{spec_floor_zero, FlowControl, WindowSize, MAX_WINDOW_SIZE};
use crate::proto::state::State;
use crate::proto::streams::prioritized::Prioritized;
use crate::proto::streams::store::Key;
use crate::proto::streams::stream::Record;
use futures::task::Task;
use vstd::prelude::*;

verus! {

/// The smaller of two integers.
pub open spec fn spec_min(a: int, b: int) -> int {
    if a <= b {
        a
    } else {
        b
    }
}

/// A queue with `key` appended, unless it holds `key` already.
pub open spec fn enqueue(queue: Seq<Key>, key: Key) -> Seq<Key> {
    if queue.contains(key) {
        queue
    } else {
        queue.push(key)
    }
}

/// The sum of the values of a finite map.
pub open spec fn sum(m: Map<usize, int>) -> int
    decreases m.dom().len(),
    when m.dom().finite()
{
    if m.dom().len() == 0 {
        0
    } else {
        let k = m.dom().choose();
        m[k] + sum(m.remove(k))
    }
}

/// Any one value can be split off the sum.
pub proof fn lemma_sum_remove(m: Map<usize, int>, k: usize)
    requires
        m.dom().finite(),
        m.contains_key(k),
    ensures
        sum(m) == m[k] + sum(m.remove(k)),
    decreases m.dom().len(),
{
    let c = m.dom().choose();
    if m.dom().len() == 0 {
        assert(false);
    } else if c != k {
        lemma_sum_remove(m.remove(c), k);
        lemma_sum_remove(m.remove(k), c);
        assert(m.remove(c).remove(k) =~= m.remove(k).remove(c));
    }
}

/// Setting one value changes the sum by the difference.
pub proof fn lemma_sum_insert(m: Map<usize, int>, k: usize, v: int)
    requires
        m.dom().finite(),
    ensures
        sum(m.insert(k, v)) == v + sum(m.remove(k)),
        m.contains_key(k) ==> sum(m.insert(k, v)) == sum(m) - m[k] + v,
        !m.contains_key(k) ==> sum(m.insert(k, v)) == sum(m) + v,
{
    lemma_sum_remove(m.insert(k, v), k);
    assert(m.insert(k, v).remove(k) =~= m.remove(k));
    if m.contains_key(k) {
        lemma_sum_remove(m, k);
    } else {
        assert(m.remove(k) =~= m);
    }
}

/// A sum of values that are not negative is not negative.
pub proof fn lemma_sum_nonneg(m: Map<usize, int>)
    requires
        m.dom().finite(),
        forall|k: usize| #[trigger] m.contains_key(k) ==> m[k] >= 0,
    ensures
        sum(m) >= 0,
    decreases m.dom().len(),
{
    if m.dom().len() != 0 {
        let c = m.dom().choose();
        lemma_sum_nonneg(m.remove(c));
    }
}

/// No value is larger than the sum, where none is negative.
pub proof fn lemma_sum_bounds(m: Map<usize, int>, k: usize)
    requires
        m.dom().finite(),
        m.contains_key(k),
        forall|j: usize| #[trigger] m.contains_key(j) ==> m[j] >= 0,
    ensures
        m[k] <= sum(m),
{
    lemma_sum_remove(m, k);
    lemma_sum_nonneg(m.remove(k));
}

impl Record {
    /// How much more capacity the stream asks for, as far as its window
    /// goes.
    pub open spec fn additional(self) -> int {
        spec_min(
            self.requested_send_capacity - self.send_flow.available,
            spec_floor_zero(self.send_flow.window_size as int),
        )
    }

    /// How much the stream is granted when the connection has
    /// `conn_available` to give: what it asks for, as far as the
    /// connection can give it and its own window has room for it.
    pub open spec fn grant(self, conn_available: int) -> int {
        if self.additional() <= 0 || conn_available <= 0 {
            0
        } else {
            spec_min(
                spec_min(conn_available, self.additional()),
                spec_floor_zero(self.send_flow.window_size as int) - self.send_flow.available,
            )
        }
    }

    /// The stream after `capacity` was granted to it: the producer is told,
    /// and woken if more is granted now than is buffered.
    pub open spec fn assigned(self, capacity: int) -> Record {
        Record {
            send_capacity_inc: true,
            send_flow: FlowControl {
                available: (self.send_flow.available + capacity) as WindowSize,
                ..self.send_flow
            },
            send_task: if self.send_flow.available + capacity > self.buffered_send_data {
                None::<Task>
            } else {
                self.send_task
            },
            ..self
        }
    }

    /// The stream after `len` bytes of it went on the wire.
    pub open spec fn sent(self, len: int) -> Record {
        Record {
            send_flow: FlowControl {
                window_size: (self.send_flow.window_size - len) as WindowSize,
                available: (self.send_flow.available - len) as WindowSize,
            },
            ..self
        }
    }
}

/// How many bytes of a DATA payload of `sz` bytes go into the next frame:
/// no more than the codec takes in one frame, and no more than the stream
/// has been granted.
pub open spec fn chunk_len(sz: int, max_len: int, stream_capacity: int) -> int {
    spec_min(spec_min(sz, max_len), stream_capacity)
}

/// The frame that is handed to the codec for the queued DATA frame `frame`
/// when `len` bytes of it may be written. It ends the stream only if the
/// whole payload fits; the payload keeps the mark for what is left.
pub open spec fn fragment(frame: Data<Payload>, len: int, key: Key) -> Data<Prioritized> {
    Data {
        stream_id: frame.stream_id,
        data: Prioritized {
            inner: frame.data,
            limit: len as usize,
            end_of_stream: frame.end_stream,
            stream: key,
        },
        end_stream: frame.end_stream && frame.data@.len() <= len,
        pad_len: frame.pad_len,
    }
}

/// The frame that is queued again for what the codec left unwritten of
/// `frame`.
pub open spec fn residual(frame: Data<Prioritized>) -> Data<Payload> {
    Data {
        stream_id: frame.stream_id,
        data: frame.data.inner,
        end_stream: frame.end_stream || frame.data.end_of_stream,
        pad_len: frame.pad_len,
    }
}

/// The sending side of a connection.
#[verifier::ext_equal]
pub ghost struct Model {
    /// The streams, by their key in the store.
    pub streams: Map<usize, Record>,
    /// The frames of each stream that wait to be written, first to last.
    pub frames: Map<usize, Seq<Frame<Payload>>>,
    /// The streams that are scheduled for writing, first to last.
    pub pending_send: Seq<Key>,
    /// The streams that wait for capacity of the connection, first to last.
    pub pending_capacity: Seq<Key>,
    /// The send window of the connection.
    pub flow: FlowControl,
}

/// The outcome of taking the next frame to write.
pub ghost struct Popped {
    pub model: Model,
    pub frame: Option<Frame<Prioritized>>,
}

impl Record {
    /// `after` is this stream after nothing but grants of capacity: what
    /// it has been granted has not shrunk, and all else but the note and
    /// the task for the producer is as it was.
    pub open spec fn granted(self, after: Record) -> bool {
        &&& after.id == self.id
        &&& after.state == self.state
        &&& after.send_flow.window_size == self.send_flow.window_size
        &&& after.send_flow.available >= self.send_flow.available
        &&& after.requested_send_capacity == self.requested_send_capacity
        &&& after.buffered_send_data == self.buffered_send_data
        &&& after.recv_flow == self.recv_flow
        &&& after.in_flight_recv_data == self.in_flight_recv_data
        &&& after.recv_task == self.recv_task
        &&& after.content_length == self.content_length
    }
}

impl Model {
    /// `after` is this state after nothing but grants of capacity to
    /// streams.
    pub open spec fn grants_only(self, after: Model) -> bool {
        &&& after.streams.dom() == self.streams.dom()
        &&& after.frames == self.frames
        &&& after.flow.window_size == self.flow.window_size
        &&& forall|k: usize| #[trigger]
            self.streams.contains_key(k) ==> self.streams[k].granted(after.streams[k])
    }

    /// Every stream of this state is in `after`, with a send window that is
    /// either no smaller than it was or not negative.
    pub open spec fn windows_kept(self, after: Model) -> bool {
        &&& after.streams.dom() == self.streams.dom()
        &&& forall|k: usize| #[trigger]
            self.streams.contains_key(k) ==> after.streams[k].send_flow.window_size
                >= self.streams[k].send_flow.window_size || after.streams[k].send_flow.window_size
                >= 0
    }

    /// No stream's send window is below `bound`.
    pub open spec fn windows_above(self, bound: int) -> bool {
        forall|k: usize| #[trigger]
            self.streams.contains_key(k) ==> self.streams[k].send_flow.window_size >= bound
    }

    /// What every stream has been granted, in total.
    pub open spec fn total_available(self) -> int {
        sum(self.streams.map_values(|r: Record| r.send_flow.available as int))
    }

    /// The flow-control invariant: every stream is well formed, and what
    /// the streams have been granted together with what the connection has
    /// left to grant stays within the connection window.
    pub open spec fn inv(self) -> bool {
        &&& self.streams.dom().finite()
        &&& self.frames.dom() == self.streams.dom()
        &&& self.flow.wf()
        &&& forall|k: usize| #[trigger] self.streams.contains_key(k) ==> self.streams[k].wf()
        &&& self.total_available() + self.flow.available <= self.flow.window_size
    }

    pub open spec fn with_stream(self, key: usize, record: Record) -> Model {
        Model { streams: self.streams.insert(key, record), ..self }
    }

    pub open spec fn with_frames(self, key: usize, frames: Seq<Frame<Payload>>) -> Model {
        Model { frames: self.frames.insert(key, frames), ..self }
    }

    /// Grants the stream what it asks for, as far as the connection can:
    /// nothing happens if it asks for nothing more. Otherwise the grant
    /// moves from the connection to the stream; the stream queues up for
    /// more while it has less than it asked for and room in its window;
    /// and it is scheduled for writing if data is buffered.
    pub open spec fn try_assign(self, key: usize) -> Model {
        let r = self.streams[key];
        if r.additional() <= 0 {
            self
        } else {
            let g = r.grant(self.flow.available as int);
            let r2 = if g > 0 {
                r.assigned(g)
            } else {
                r
            };
            Model {
                streams: self.streams.insert(key, r2),
                frames: self.frames,
                flow: FlowControl {
                    available: (self.flow.available - g) as WindowSize,
                    ..self.flow
                },
                pending_capacity: if r2.send_flow.available < r2.requested_send_capacity
                    && r2.send_flow.spec_has_unavailable() {
                    enqueue(self.pending_capacity, Key(key))
                } else {
                    self.pending_capacity
                },
                pending_send: if r2.buffered_send_data > 0 {
                    enqueue(self.pending_send, Key(key))
                } else {
                    self.pending_send
                },
            }
        }
    }

    /// Appends a frame to the stream's pending frames and schedules the
    /// stream.
    pub open spec fn queue_frame(self, key: usize, frame: Frame<Payload>) -> Model {
        Model {
            frames: self.frames.insert(key, self.frames[key].push(frame)),
            pending_send: enqueue(self.pending_send, Key(key)),
            ..self
        }
    }

    /// Why a DATA frame of `sz` bytes is refused on the stream, if it is.
    pub open spec fn send_data_error(self, key: usize, sz: int) -> Option<ConnectionError> {
        let r = self.streams[key];
        if sz > MAX_WINDOW_SIZE {
            Some(ConnectionError::User(User::PayloadTooBig))
        } else if !r.state.spec_is_send_streaming() {
            if r.state.spec_is_closed() {
                Some(ConnectionError::User(User::InactiveStreamId))
            } else {
                Some(ConnectionError::User(User::UnexpectedFrameType))
            }
        } else if r.buffered_send_data + sz > MAX_WINDOW_SIZE {
            Some(ConnectionError::User(User::PayloadTooBig))
        } else {
            None
        }
    }

    /// Counts `sz` more bytes as buffered on the stream. If the stream has
    /// asked for less than it has buffered now, it asks for that much, and
    /// is granted what can be granted of it.
    pub open spec fn buffer_data(self, key: usize, sz: int) -> Model {
        let r = self.streams[key];
        let buffered = r.buffered_send_data + sz;
        if r.requested_send_capacity < buffered {
            self.with_stream(
                key,
                Record {
                    buffered_send_data: buffered as WindowSize,
                    requested_send_capacity: buffered as WindowSize,
                    ..r
                },
            ).try_assign(key)
        } else {
            self.with_stream(key, Record { buffered_send_data: buffered as WindowSize, ..r })
        }
    }

    /// Closes the sending half of a stream that is still sending.
    pub open spec fn close_send(self, key: usize) -> Model {
        let r = self.streams[key];
        self.with_stream(key, Record { state: r.state.spec_send_close().unwrap(), ..r })
    }

    /// Takes a DATA frame for sending, where it is not refused. The
    /// payload counts as buffered and, if needed, capacity is asked for on
    /// its behalf. The state follows an END_STREAM flag. The frame is
    /// queued in any case; the stream is only scheduled if it has been
    /// granted as much as it has buffered.
    pub open spec fn send_data(self, key: usize, frame: Data<Payload>) -> Model {
        let m1 = self.buffer_data(key, frame.data@.len() as int);
        let r1 = m1.streams[key];
        let m2 = if frame.end_stream {
            m1.close_send(key)
        } else {
            m1
        };
        if r1.send_flow.available >= r1.buffered_send_data {
            m2.queue_frame(key, Frame::Data(frame))
        } else {
            m2.with_frames(key, m2.frames[key].push(Frame::Data(frame)))
        }
    }

    /// Whether `send_data` schedules the stream, and wakes the connection
    /// task: it does if the stream has been granted as much as it has
    /// buffered, the new payload included.
    pub open spec fn send_data_wakes(self, key: usize, frame: Data<Payload>) -> bool {
        let r1 = self.buffer_data(key, frame.data@.len() as int).streams[key];
        r1.send_flow.available >= r1.buffered_send_data
    }

    /// Raises what the stream asks for to `capacity` beyond what is
    /// buffered. A request that is not higher than the standing one
    /// changes nothing.
    pub open spec fn reserve_capacity(self, key: usize, capacity: int) -> Model {
        let r = self.streams[key];
        let wanted = capacity + r.buffered_send_data;
        if wanted <= r.requested_send_capacity {
            self
        } else {
            self.with_stream(
                key,
                Record { requested_send_capacity: wanted as WindowSize, ..r },
            ).try_assign(key)
        }
    }

    /// Applies a window update to the stream, where the window does not
    /// overflow.
    pub open spec fn recv_stream_window_update(self, key: usize, inc: int) -> Option<Model> {
        let r = self.streams[key];
        match r.send_flow.spec_inc_window(inc) {
            Some(flow) => Some(
                self.with_stream(key, Record { send_flow: flow, ..r }).try_assign(key),
            ),
            None => None,
        }
    }

    /// Hands capacity of the connection to the streams that wait for it,
    /// first come first served, until the connection has nothing left or
    /// nobody waits. `rounds` bounds the number of streams served.
    pub open spec fn distribute(self, rounds: nat) -> Model
        decreases rounds,
    {
        if rounds == 0 || self.flow.available <= 0 || self.pending_capacity.len() == 0 {
            self
        } else {
            let head = self.pending_capacity[0];
            Model { pending_capacity: self.pending_capacity.drop_first(), ..self }.try_assign(
                head.0,
            ).distribute((rounds - 1) as nat)
        }
    }

    /// Gives the connection `inc` more to grant and hands it on to the
    /// streams that wait.
    pub open spec fn assign_connection_capacity(self, inc: int) -> Model {
        Model {
            flow: FlowControl { available: (self.flow.available + inc) as WindowSize, ..self.flow },
            ..self
        }.distribute(self.pending_capacity.len())
    }

    /// Applies a window update to the connection, where the window does
    /// not overflow.
    pub open spec fn recv_connection_window_update(self, inc: int) -> Option<Model> {
        match self.flow.spec_inc_window(inc) {
            Some(flow) => Some(Model { flow, ..self }.assign_connection_capacity(inc)),
            None => None,
        }
    }

    /// Drops the frames that the stream has pending.
    pub open spec fn clear_queue(self, key: usize) -> Model {
        self.with_frames(key, Seq::empty())
    }

    /// Puts a frame in front of the stream's pending frames, and schedules
    /// the stream if it has capacity.
    pub open spec fn push_back_frame(self, key: usize, frame: Frame<Payload>) -> Model {
        Model {
            frames: self.frames.insert(key, seq![frame] + self.frames[key]),
            pending_send: if self.streams[key].send_flow.available > 0 {
                enqueue(self.pending_send, Key(key))
            } else {
                self.pending_send
            },
            ..self
        }
    }

    /// Takes back the DATA frame that the codec wrote last. If bytes are
    /// left of it, they go to the front of their stream's pending frames.
    pub open spec fn reclaim_frame(self, frame: Option<Data<Prioritized>>) -> Model {
        match frame {
            Some(f) => if f.data.inner@.len() > 0 {
                self.push_back_frame(f.data.stream.0, Frame::Data(residual(f)))
            } else {
                self
            },
            None => self,
        }
    }

    /// Whether `reclaim_frame` queued anything again.
    pub open spec fn reclaims(frame: Option<Data<Prioritized>>) -> bool {
        frame matches Some(f) && f.data.inner@.len() > 0
    }

    /// The state after the first scheduled stream gave its first frame,
    /// `first`, to the codec: the stream is scheduled again if more frames
    /// are pending.
    pub open spec fn after_pop(self, key: usize, record: Record) -> Model {
        let rest = self.frames[key].drop_first();
        Model {
            streams: self.streams.insert(key, record),
            frames: self.frames.insert(key, rest),
            pending_send: if rest.len() > 0 {
                enqueue(self.pending_send, Key(key))
            } else {
                self.pending_send
            },
            ..self
        }
    }

    /// What the stream gives to the codec when its turn comes: nothing if
    /// nothing is pending on it, or if a DATA frame with bytes is at its
    /// front and it has no capacity. Otherwise its first frame: a DATA
    /// frame is cut to `chunk_len` bytes, which are taken off the stream's
    /// grant and off both windows, and a DATA frame without bytes is
    /// always given; any other frame is given as it is.
    pub open spec fn take_from(self, key: Key, max_len: int) -> Option<Popped> {
        let r = self.streams[key.0];
        let pending = self.frames[key.0];
        if pending.len() == 0 {
            None
        } else {
            match pending[0] {
                Frame::Data(d) => {
                    let sz = d.data@.len() as int;
                    let cap = r.send_flow.available as int;
                    if sz > 0 && cap == 0 {
                        None
                    } else {
                        let len = chunk_len(sz, max_len, cap);
                        Some(
                            Popped {
                                model: Model {
                                    flow: FlowControl {
                                        window_size: (self.flow.window_size - len) as WindowSize,
                                        ..self.flow
                                    },
                                    ..self
                                }.after_pop(key.0, r.sent(len)),
                                frame: Some(Frame::Data(fragment(d, len, key))),
                            },
                        )
                    }
                },
                other => Some(
                    Popped {
                        model: self.after_pop(key.0, r),
                        frame: Some(other.spec_without_payload::<Prioritized>()),
                    },
                ),
            }
        }
    }

    /// Takes the next frame to write: that of the first scheduled stream
    /// that has one to give. The streams that are passed over leave the
    /// schedule.
    pub open spec fn pop_frame(self, max_len: int) -> Popped
        decreases self.pending_send.len(),
    {
        if self.pending_send.len() == 0 {
            Popped { model: self, frame: None }
        } else {
            let key = self.pending_send[0];
            let m1 = Model { pending_send: self.pending_send.drop_first(), ..self };
            match m1.take_from(key, max_len) {
                Some(popped) => popped,
                None => m1.pop_frame(max_len),
            }
        }
    }

    /// Opens the stream's sending half with a HEADERS frame, where the
    /// state allows it.
    pub open spec fn send_headers(self, key: usize, frame: Headers) -> Option<Model> {
        let r = self.streams[key];
        match r.state.spec_send_open(frame.end_stream) {
            Some(state) => Some(
                self.with_stream(key, Record { state, ..r }).queue_frame(
                    key,
                    Frame::Headers(frame),
                ),
            ),
            None => None,
        }
    }

    /// Closes the stream's sending half with trailers, where the stream is
    /// still sending.
    pub open spec fn send_trailers(self, key: usize, frame: Headers) -> Option<Model> {
        let r = self.streams[key];
        if r.state.spec_is_send_streaming() {
            Some(
                self.with_stream(
                    key,
                    Record { state: r.state.spec_send_close().unwrap(), ..r },
                ).queue_frame(key, Frame::Headers(frame)),
            )
        } else {
            None
        }
    }

    /// A reset changes nothing on a stream that is reset already, or that
    /// is closed with nothing left to write.
    pub open spec fn reset_skipped(self, key: usize) -> bool {
        let r = self.streams[key];
        r.state.spec_is_reset() || (r.state.spec_is_closed() && self.frames[key].len() == 0)
    }

    /// Resets the stream unless the reset is skipped: its pending frames
    /// are dropped and a RST_STREAM frame is queued in their place, and
    /// what the stream had been granted goes back to the connection and on
    /// to the streams that wait.
    pub open spec fn send_reset(self, key: usize, reason: Reason) -> Model {
        let r = self.streams[key];
        if self.reset_skipped(key) {
            self
        } else {
            self.with_stream(
                key,
                Record {
                    state: r.state.spec_set_reset(reason),
                    send_flow: FlowControl { available: 0, ..r.send_flow },
                    ..r
                },
            ).clear_queue(key).queue_frame(
                key,
                Frame::Reset(Reset { stream_id: r.id, error_code: reason }),
            ).assign_connection_capacity(r.send_flow.available as int)
        }
    }
}

impl Model {
    /// Windows that are kept twice over are kept.
    pub proof fn lemma_windows_kept_trans(self, mid: Model, after: Model)
        requires
            self.windows_kept(mid),
            mid.windows_kept(after),
        ensures
            self.windows_kept(after),
    {
        assert forall|k: usize| #[trigger] self.streams.contains_key(k) implies
            after.streams[k].send_flow.window_size
            >= self.streams[k].send_flow.window_size || after.streams[k].send_flow.window_size
            >= 0 by {
            assert(mid.streams.contains_key(k));
        }
    }

    /// Windows that are kept stay above any bound that is not positive.
    pub proof fn lemma_windows_above(self, after: Model, bound: int)
        requires
            self.windows_kept(after),
            self.windows_above(bound),
            bound <= 0,
        ensures
            after.windows_above(bound),
    {
        assert forall|k: usize| #[trigger] after.streams.contains_key(k) implies
            after.streams[k].send_flow.window_size
            >= bound by {
            assert(self.streams.contains_key(k));
        }
    }

    /// Grants of capacity keep every window as it is.
    pub proof fn lemma_grants_keep_windows(self, after: Model)
        requires
            self.grants_only(after),
        ensures
            self.windows_kept(after),
    {
    }

    /// Replacing one stream changes the total by the difference of what
    /// the two have been granted.
    pub proof fn lemma_total_with_stream(self, key: usize, record: Record)
        requires
            self.streams.dom().finite(),
            self.streams.contains_key(key),
        ensures
            self.with_stream(key, record).total_available() == self.total_available()
                - self.streams[key].send_flow.available + record.send_flow.available,
    {
        let f = |r: Record| r.send_flow.available as int;
        assert(self.streams.insert(key, record).map_values(f) =~= self.streams.map_values(
            f,
        ).insert(key, f(record)));
        assert(self.streams.map_values(f).dom() =~= self.streams.dom());
        lemma_sum_insert(self.streams.map_values(f), key, f(record));
    }

    /// The total of what has been granted is not negative.
    pub proof fn lemma_total_nonneg(self)
        requires
            self.inv(),
        ensures
            self.total_available() >= 0,
    {
        let f = |r: Record| r.send_flow.available as int;
        let m = self.streams.map_values(f);
        assert(m.dom() =~= self.streams.dom());
        assert forall|j: usize| #[trigger] m.contains_key(j) implies m[j] >= 0 by {
            assert(self.streams.contains_key(j));
        }
        lemma_sum_nonneg(m);
    }

    /// No stream has been granted more than all of them together.
    pub proof fn lemma_total_bounds(self, key: usize)
        requires
            self.inv(),
            self.streams.contains_key(key),
        ensures
            self.streams[key].send_flow.available <= self.total_available(),
    {
        let f = |r: Record| r.send_flow.available as int;
        let m = self.streams.map_values(f);
        assert(m.dom() =~= self.streams.dom());
        assert forall|j: usize| #[trigger] m.contains_key(j) implies m[j] >= 0 by {
            assert(self.streams.contains_key(j));
        }
        lemma_sum_bounds(m, key);
    }

    /// Granting capacity keeps the flow-control invariant. The stream only
    /// queues up for more when the connection has nothing left.
    pub proof fn lemma_try_assign(self, key: usize)
        requires
            self.inv(),
            self.streams.contains_key(key),
        ensures
            self.try_assign(key).inv(),
            self.try_assign(key).streams.dom() == self.streams.dom(),
            self.try_assign(key).frames == self.frames,
            self.try_assign(key).flow.window_size == self.flow.window_size,
            self.try_assign(key).flow.available > 0 ==> self.try_assign(key).pending_capacity
                == self.pending_capacity,
            forall|k: usize|
                k != key && self.streams.contains_key(k) ==> #[trigger] self.try_assign(
                    key,
                ).streams[k] == self.streams[k],
            self.grants_only(self.try_assign(key)),
    {
        let r = self.streams[key];
        if r.additional() > 0 {
            let g = r.grant(self.flow.available as int);
            let r2 = if g > 0 {
                r.assigned(g)
            } else {
                r
            };
            self.lemma_total_with_stream(key, r2);
            let after = self.try_assign(key);
            assert(after.streams == self.with_stream(key, r2).streams);
            assert(after.streams.dom() =~= self.streams.dom());
            assert forall|k: usize| #[trigger] after.streams.contains_key(k) implies
                after.streams[k].wf() by {
                if k != key {
                    assert(self.streams.contains_key(k));
                }
            }
        }
    }

    /// Handing out connection capacity keeps the flow-control invariant.
    pub proof fn lemma_distribute(self, rounds: nat)
        requires
            self.inv(),
            forall|i: int|
                0 <= i < self.pending_capacity.len() ==> self.streams.contains_key(
                    #[trigger] self.pending_capacity[i].0,
                ),
        ensures
            self.distribute(rounds).inv(),
            self.distribute(rounds).streams.dom() == self.streams.dom(),
            self.distribute(rounds).frames == self.frames,
            self.grants_only(self.distribute(rounds)),
        decreases rounds,
    {
        if !(rounds == 0 || self.flow.available <= 0 || self.pending_capacity.len() == 0) {
            let head = self.pending_capacity[0];
            let m1 = Model { pending_capacity: self.pending_capacity.drop_first(), ..self };
            assert(m1.total_available() == self.total_available());
            m1.lemma_try_assign(head.0);
            let m2 = m1.try_assign(head.0);
            assert forall|i: int| 0 <= i < m2.pending_capacity.len() implies
                m2.streams.contains_key(
                #[trigger] m2.pending_capacity[i].0,
            ) by {
                if i < m1.pending_capacity.len() {
                    assert(m1.pending_capacity[i] == self.pending_capacity[i + 1]);
                }
            }
            m2.lemma_distribute((rounds - 1) as nat);
            let m3 = m2.distribute((rounds - 1) as nat);
            assert forall|k: usize| #[trigger] self.streams.contains_key(k) implies
                self.streams[k].granted(
                m3.streams[k],
            ) by {
                assert(m1.streams.contains_key(k));
                assert(m2.streams.contains_key(k));
            }
        }
    }

    /// Giving a frame to the codec keeps the flow-control invariant, and
    /// no window falls below zero by it.
    pub proof fn lemma_take_from(self, key: Key, max_len: int)
        requires
            self.inv(),
            max_len >= 0,
            self.streams.contains_key(key.0),
            self.take_from(key, max_len) is Some,
        ensures
            self.take_from(key, max_len).unwrap().model.inv(),
            self.take_from(key, max_len).unwrap().model.streams.dom() == self.streams.dom(),
            self.windows_kept(self.take_from(key, max_len).unwrap().model),
    {
        let r = self.streams[key.0];
        let pending = self.frames[key.0];
        let after = self.take_from(key, max_len).unwrap().model;
        match pending[0] {
            Frame::Data(d) => {
                let sz = d.data@.len() as int;
                let cap = r.send_flow.available as int;
                let len = chunk_len(sz, max_len, cap);
                let m2 = Model {
                    flow: FlowControl {
                        window_size: (self.flow.window_size - len) as WindowSize,
                        ..self.flow
                    },
                    ..self
                };
                self.lemma_total_bounds(key.0);
                m2.lemma_total_with_stream(key.0, r.sent(len));
                assert(m2.total_available() == self.total_available());
                assert(after.streams == m2.with_stream(key.0, r.sent(len)).streams);
                assert(after.streams.dom() =~= self.streams.dom());
                assert(after.frames.dom() =~= self.streams.dom());
                assert forall|k: usize| #[trigger] after.streams.contains_key(k) implies
                    after.streams[k].wf() by {
                    if k != key.0 {
                        assert(self.streams.contains_key(k));
                    }
                }
            },
            _ => {
                assert(after.streams =~= self.streams);
                assert(after.frames.dom() =~= self.streams.dom());
            },
        }
    }

    /// Taking a frame for writing keeps the flow-control invariant, and no
    /// window falls below zero by it.
    pub proof fn lemma_pop_frame(self, max_len: int)
        requires
            self.inv(),
            max_len >= 0,
            forall|i: int|
                0 <= i < self.pending_send.len() ==> self.streams.contains_key(
                    #[trigger] self.pending_send[i].0,
                ),
        ensures
            self.pop_frame(max_len).model.inv(),
            self.pop_frame(max_len).model.streams.dom() == self.streams.dom(),
            self.windows_kept(self.pop_frame(max_len).model),
        decreases self.pending_send.len(),
    {
        if self.pending_send.len() > 0 {
            let key = self.pending_send[0];
            let m1 = Model { pending_send: self.pending_send.drop_first(), ..self };
            assert(self.streams.contains_key(key.0));
            assert(m1.total_available() == self.total_available());
            assert forall|i: int| 0 <= i < m1.pending_send.len() implies m1.streams.contains_key(
                #[trigger] m1.pending_send[i].0,
            ) by {
                assert(m1.pending_send[i] == self.pending_send[i + 1]);
            }
            if m1.take_from(key, max_len) is Some {
                m1.lemma_take_from(key, max_len);
            } else {
                m1.lemma_pop_frame(max_len);
                let m2 = m1.pop_frame(max_len).model;
                assert forall|k: usize| #[trigger] self.streams.contains_key(k) implies
                    m2.streams[k].send_flow.window_size
                    >= self.streams[k].send_flow.window_size || m2.streams[k].send_flow.window_size
                    >= 0 by {
                    assert(m1.streams.contains_key(k));
                }
            }
        }
    }

    /// Granting capacity to a stream leaves every window as it is.
    pub proof fn lemma_windows_try_assign(self, key: usize)
        requires
            self.streams.contains_key(key),
        ensures
            self.grants_only(self.try_assign(key)),
            self.windows_kept(self.try_assign(key)),
    {
        assert(self.try_assign(key).streams.dom() =~= self.streams.dom());
    }

    /// Grants upon grants are grants.
    pub proof fn lemma_grants_trans(self, mid: Model, after: Model)
        requires
            self.grants_only(mid),
            mid.grants_only(after),
        ensures
            self.grants_only(after),
    {
        assert forall|k: usize| #[trigger] self.streams.contains_key(k) implies
            self.streams[k].granted(
            after.streams[k],
        ) by {
            assert(mid.streams.contains_key(k));
        }
    }

    /// Handing out connection capacity leaves every window as it is.
    pub proof fn lemma_windows_distribute(self, rounds: nat)
        requires
            forall|i: int|
                0 <= i < self.pending_capacity.len() ==> self.streams.contains_key(
                    #[trigger] self.pending_capacity[i].0,
                ),
        ensures
            self.grants_only(self.distribute(rounds)),
            self.windows_kept(self.distribute(rounds)),
        decreases rounds,
    {
        if !(rounds == 0 || self.flow.available <= 0 || self.pending_capacity.len() == 0) {
            let head = self.pending_capacity[0];
            let m1 = Model { pending_capacity: self.pending_capacity.drop_first(), ..self };
            assert(self.streams.contains_key(head.0));
            m1.lemma_windows_try_assign(head.0);
            let m2 = m1.try_assign(head.0);
            assert forall|i: int| 0 <= i < m2.pending_capacity.len() implies
                m2.streams.contains_key(
                #[trigger] m2.pending_capacity[i].0,
            ) by {
                if i < m1.pending_capacity.len() {
                    assert(m1.pending_capacity[i] == self.pending_capacity[i + 1]);
                }
            }
            m2.lemma_windows_distribute((rounds - 1) as nat);
            self.lemma_windows_kept_trans(m2, m2.distribute((rounds - 1) as nat));
            self.lemma_grants_trans(m2, m2.distribute((rounds - 1) as nat));
        }
    }

    /// Taking a DATA frame for sending leaves every window as it is.
    pub proof fn lemma_windows_send_data(self, key: usize, frame: Data<Payload>)
        requires
            self.streams.contains_key(key),
        ensures
            self.windows_kept(self.send_data(key, frame)),
    {
        let r = self.streams[key];
        let sz = frame.data@.len() as int;
        let buffered = r.buffered_send_data + sz;
        let m0 = if r.requested_send_capacity < buffered {
            self.with_stream(
                key,
                Record {
                    buffered_send_data: buffered as WindowSize,
                    requested_send_capacity: buffered as WindowSize,
                    ..r
                },
            )
        } else {
            self.with_stream(key, Record { buffered_send_data: buffered as WindowSize, ..r })
        };
        assert(m0.streams.dom() =~= self.streams.dom());
        m0.lemma_windows_try_assign(key);
        let m1 = self.buffer_data(key, sz);
        assert(self.windows_kept(m1)) by {
            if r.requested_send_capacity < buffered {
                self.lemma_windows_kept_trans(m0, m1);
            }
        }
        let after = self.send_data(key, frame);
        assert(after.streams.dom() =~= m1.streams.dom());
        assert(m1.windows_kept(after));
        self.lemma_windows_kept_trans(m1, after);
    }

    /// Asking for capacity leaves every window as it is.
    pub proof fn lemma_windows_reserve_capacity(self, key: usize, capacity: int)
        requires
            self.streams.contains_key(key),
        ensures
            self.windows_kept(self.reserve_capacity(key, capacity)),
    {
        let r = self.streams[key];
        let wanted = capacity + r.buffered_send_data;
        if wanted > r.requested_send_capacity {
            let m0 = self.with_stream(
                key,
                Record { requested_send_capacity: wanted as WindowSize, ..r },
            );
            assert(m0.streams.dom() =~= self.streams.dom());
            m0.lemma_windows_try_assign(key);
            self.lemma_windows_kept_trans(m0, m0.try_assign(key));
        }
    }

    /// A window update makes no window smaller.
    pub proof fn lemma_windows_stream_update(self, key: usize, inc: int)
        requires
            self.streams.contains_key(key),
            inc >= 0,
            self.recv_stream_window_update(key, inc) is Some,
        ensures
            self.windows_kept(self.recv_stream_window_update(key, inc).unwrap()),
            self.recv_stream_window_update(key, inc).unwrap().frames == self.frames,
            forall|k: usize|
                k != key && self.streams.contains_key(k) ==> #[trigger] self.streams[k].granted(
                    self.recv_stream_window_update(key, inc).unwrap().streams[k],
                ),
            self.recv_stream_window_update(key, inc).unwrap().streams[key].state
                == self.streams[key].state,
            self.recv_stream_window_update(key, inc).unwrap().streams[key].send_flow.window_size
                == self.streams[key].send_flow.window_size + inc,
            self.recv_stream_window_update(key, inc).unwrap().streams[key].id
                == self.streams[key].id,
            self.recv_stream_window_update(key, inc).unwrap().streams[key].requested_send_capacity
                == self.streams[key].requested_send_capacity,
            self.recv_stream_window_update(key, inc).unwrap().streams[key].buffered_send_data
                == self.streams[key].buffered_send_data,
    {
        let r = self.streams[key];
        let flow = r.send_flow.spec_inc_window(inc).unwrap();
        let m0 = self.with_stream(key, Record { send_flow: flow, ..r });
        assert(m0.streams.dom() =~= self.streams.dom());
        m0.lemma_windows_try_assign(key);
        self.lemma_windows_kept_trans(m0, m0.try_assign(key));
    }

    /// Capacity for the connection leaves every stream's window as it is.
    pub proof fn lemma_windows_connection_capacity(self, inc: int)
        requires
            forall|i: int|
                0 <= i < self.pending_capacity.len() ==> self.streams.contains_key(
                    #[trigger] self.pending_capacity[i].0,
                ),
        ensures
            self.grants_only(self.assign_connection_capacity(inc)),
            self.windows_kept(self.assign_connection_capacity(inc)),
    {
        let m0 = Model {
            flow: FlowControl { available: (self.flow.available + inc) as WindowSize, ..self.flow },
            ..self
        };
        m0.lemma_windows_distribute(self.pending_capacity.len());
    }

    /// A reset leaves every window as it is.
    pub proof fn lemma_windows_send_reset(self, key: usize, reason: Reason)
        requires
            self.streams.contains_key(key),
            forall|i: int|
                0 <= i < self.pending_capacity.len() ==> self.streams.contains_key(
                    #[trigger] self.pending_capacity[i].0,
                ),
        ensures
            self.windows_kept(self.send_reset(key, reason)),
            self.send_reset(key, reason).reset_skipped(key),
            self.send_reset(key, reason).streams[key].send_flow.window_size
                == self.streams[key].send_flow.window_size,
            self.send_reset(key, reason).streams[key].id == self.streams[key].id,
            self.send_reset(key, reason).streams[key].requested_send_capacity
                == self.streams[key].requested_send_capacity,
            self.send_reset(key, reason).streams[key].buffered_send_data
                == self.streams[key].buffered_send_data,
            !self.reset_skipped(key) ==> self.send_reset(key, reason).streams[key].state
                == State::Reset(reason) && self.send_reset(key, reason).frames[key] == seq![
                Frame::<Payload>::Reset(
                    Reset { stream_id: self.streams[key].id, error_code: reason },
                ),
            ],
            forall|k: usize|
                k != key && self.streams.contains_key(k) ==> #[trigger] self.streams[k].granted(
                    self.send_reset(key, reason).streams[k],
                ) && self.send_reset(key, reason).frames[k] == self.frames[k],
    {
        if !self.reset_skipped(key) {
            let r = self.streams[key];
            let m0 = self.with_stream(
                key,
                Record {
                    state: r.state.spec_set_reset(reason),
                    send_flow: FlowControl { available: 0, ..r.send_flow },
                    ..r
                },
            ).clear_queue(key).queue_frame(
                key,
                Frame::Reset(Reset { stream_id: r.id, error_code: reason }),
            );
            assert(m0.streams.dom() =~= self.streams.dom());
            m0.lemma_windows_connection_capacity(r.send_flow.available as int);
            self.lemma_windows_kept_trans(
                m0,
                m0.assign_connection_capacity(r.send_flow.available as int),
            );
            let after = m0.assign_connection_capacity(r.send_flow.available as int);
            assert(m0.streams.contains_key(key));
            assert(m0.streams[key].granted(after.streams[key]));
            assert(m0.frames[key] =~= seq![
                Frame::<Payload>::Reset(Reset { stream_id: r.id, error_code: reason }),
            ]);
        }
    }

    /// Sending data never lowers what a stream asks for, and leaves it
    /// asking for at least as much as it has buffered.
    pub proof fn lemma_send_data_requests(self, key: usize, frame: Data<Payload>)
        requires
            self.streams.contains_key(key),
            self.streams[key].requested_send_capacity >= 0,
            self.send_data_error(key, frame.data@.len() as int) is None,
        ensures
            self.send_data(key, frame).streams[key].requested_send_capacity
                >= self.streams[key].requested_send_capacity,
            self.send_data(key, frame).streams[key].requested_send_capacity >= self.send_data(
                key,
                frame,
            ).streams[key].buffered_send_data,
            self.send_data(key, frame).streams[key].buffered_send_data
                == self.streams[key].buffered_send_data + frame.data@.len(),
    {
    }

    /// A reset is idempotent: once a stream was asked to reset, asking
    /// again changes nothing, so no second RST_STREAM frame is queued.
    pub proof fn lemma_reset_idempotent(self, key: usize, first: Reason, second: Reason)
        requires
            self.streams.contains_key(key),
            forall|i: int|
                0 <= i < self.pending_capacity.len() ==> self.streams.contains_key(
                    #[trigger] self.pending_capacity[i].0,
                ),
        ensures
            self.send_reset(key, first).send_reset(key, second) == self.send_reset(key, first),
    {
        self.lemma_windows_send_reset(key, first);
    }

    /// A DATA frame without bytes is given to the codec whatever the
    /// stream has been granted, and costs no capacity.
    pub proof fn lemma_empty_data_is_given(self, key: Key, max_len: int)
        requires
            max_len >= 0,
            self.streams[key.0].send_flow.available >= 0,
            self.frames[key.0].len() > 0,
            self.frames[key.0][0] matches Frame::Data(d) && d.data@.len() == 0,
        ensures
            self.take_from(key, max_len) matches Some(popped) && popped.frame matches Some(
                Frame::Data(f),
            ) && f == fragment(self.frames[key.0][0]->Data_0, 0, key) && popped.model.streams[key.0]
                == self.streams[key.0] && popped.model.flow == self.flow,
    {
        let r = self.streams[key.0];
        let popped = self.take_from(key, max_len).unwrap();
        assert(chunk_len(0, max_len, r.send_flow.available as int) == 0);
        assert(r.sent(0) == r);
    }

    /// What the codec leaves unwritten of a DATA frame is first in line
    /// again: after the frame was given to the codec and taken back with
    /// bytes left, the stream's pending frames are what they were, but for
    /// the bytes that were written.
    pub proof fn lemma_reclaim_restores_order(
        self,
        key: Key,
        max_len: int,
        written: Data<Prioritized>,
    )
        requires
            self.frames.contains_key(key.0),
            self.frames[key.0].len() > 0,
            self.frames[key.0][0] is Data,
            self.take_from(key, max_len) is Some,
            written.data.stream == key,
            written.data.inner@.len() > 0,
        ensures
            self.take_from(key, max_len).unwrap().model.reclaim_frame(Some(written)).frames[key.0]
                == seq![Frame::Data(residual(written))] + self.frames[key.0].drop_first(),
    {
        let after = self.take_from(key, max_len).unwrap().model;
        assert(after.frames[key.0] == self.frames[key.0].drop_first());
    }

    /// A stream that has given its last pending frame to the codec is not
    /// scheduled any more; one that has more pending is.
    pub proof fn lemma_scheduled_while_pending(self, key: Key, max_len: int)
        requires
            !self.pending_send.contains(key),
            self.take_from(key, max_len) is Some,
        ensures
            self.take_from(key, max_len).unwrap().model.pending_send.contains(key) <==> self.take_from(
                key,
                max_len,
            ).unwrap().model.frames[key.0].len() > 0,
    {
        let after = self.take_from(key, max_len).unwrap().model;
        let rest = self.frames[key.0].drop_first();
        assert(after.frames[key.0] == rest);
        if rest.len() > 0 {
            assert(after.pending_send == self.pending_send.push(key));
            assert(after.pending_send[self.pending_send.len() as int] == key);
        } else {
            assert(after.pending_send == self.pending_send);
        }
    }
}

/// What the codec is handed for a queued DATA frame and what comes back of
/// it make up the frame again. `written` is the fragment after the codec
/// has written all `len` bytes that it may.
///
/// The bytes handed out followed by the bytes queued again are the
/// payload; the fragment ends the stream only if it carries the whole
/// payload of a frame that ends it; and what is queued again ends the
/// stream exactly if the frame did.
pub proof fn lemma_fragment_and_residual(
    frame: Data<Payload>,
    len: int,
    key: Key,
    written: Data<Prioritized>,
)
    requires
        0 <= len <= frame.data@.len(),
        len <= usize::MAX,
        written.stream_id == frame.stream_id,
        written.pad_len == frame.pad_len,
        written.end_stream == fragment(frame, len, key).end_stream,
        written.data.end_of_stream == frame.end_stream,
        written.data.stream == key,
        written.data.inner@ == fragment(frame, len, key).data.inner@.skip(len),
    ensures
        fragment(frame, len, key).data@ + written.data.inner@ == frame.data@,
        fragment(frame, len, key).data@.len() == len,
        fragment(frame, len, key).end_stream <==> frame.end_stream && len == frame.data@.len(),
        residual(written).stream_id == frame.stream_id,
        residual(written).data@ == frame.data@.skip(len),
        residual(written).end_stream == frame.end_stream,
{
    let f = fragment(frame, len, key);
    assert(f.data@ =~= frame.data@.take(len));
    assert(frame.data@.take(len) + frame.data@.skip(len) =~= frame.data@);
}

/// One DATA frame as the codec sees it: a part of the payload, and whether
/// it carries END_STREAM.
pub ghost struct Observed {
    pub bytes: Seq<u8>,
    pub end_stream: bool,
}

/// The DATA frames that the codec sees of one queued frame with this
/// payload when the frame is cut to `lens[0]` bytes at first, what is left
/// of it to `lens[1]` bytes, and so on until nothing is left or `lens` is
/// used up.
pub open spec fn observed(payload: Seq<u8>, end_stream: bool, lens: Seq<int>) -> Seq<Observed>
    decreases lens.len(),
{
    if lens.len() == 0 {
        Seq::empty()
    } else {
        let len = spec_min(payload.len() as int, lens[0]);
        let first = Observed {
            bytes: payload.take(len),
            end_stream: end_stream && payload.len() <= len,
        };
        if payload.len() <= len {
            seq![first]
        } else {
            seq![first] + observed(payload.skip(len), end_stream, lens.drop_first())
        }
    }
}

/// The payloads of the frames, one after the other.
pub open spec fn joined(frames: Seq<Observed>) -> Seq<u8>
    decreases frames.len(),
{
    if frames.len() == 0 {
        Seq::empty()
    } else {
        frames[0].bytes + joined(frames.drop_first())
    }
}

/// A DATA frame that is sent in pieces arrives whole: where the pieces
/// allowed add up to the payload, the payloads of the frames that the
/// codec sees make up the payload, and END_STREAM is on the last of them
/// only, and there exactly if it was on the frame.
pub proof fn lemma_observed_whole(payload: Seq<u8>, end_stream: bool, lens: Seq<int>)
    requires
        lens.len() > 0,
        forall|i: int| 0 <= i < lens.len() ==> lens[i] >= 0,
        crate::proto::streams::model::sum_of(lens) >= payload.len(),
    ensures
        observed(payload, end_stream, lens).len() > 0,
        joined(observed(payload, end_stream, lens)) == payload,
        observed(payload, end_stream, lens).last().end_stream == end_stream,
        forall|i: int|
            0 <= i < observed(payload, end_stream, lens).len() - 1 ==> !(#[trigger] observed(
                payload,
                end_stream,
                lens,
            )[i]).end_stream,
    decreases lens.len(),
{
    let len = spec_min(payload.len() as int, lens[0]);
    let first = Observed {
        bytes: payload.take(len),
        end_stream: end_stream && payload.len() <= len,
    };
    let all = observed(payload, end_stream, lens);
    if payload.len() <= len {
        assert(all =~= seq![first]);
        assert(all.drop_first() =~= Seq::<Observed>::empty());
        assert(joined(all.drop_first()) =~= Seq::<u8>::empty());
        assert(joined(all) =~= payload.take(len));
        assert(payload.take(len) =~= payload);
    } else {
        let rest_lens = lens.drop_first();
        assert forall|i: int| 0 <= i < rest_lens.len() implies rest_lens[i] >= 0 by {
            assert(rest_lens[i] == lens[i + 1]);
        }
        if rest_lens.len() == 0 {
            assert(sum_of(rest_lens) == 0);
        }
        let rest = observed(payload.skip(len), end_stream, rest_lens);
        lemma_observed_whole(payload.skip(len), end_stream, rest_lens);
        assert(all =~= seq![first] + rest);
        assert(all.drop_first() =~= rest);
        assert(joined(all) =~= payload.take(len) + payload.skip(len));
        assert(payload.take(len) + payload.skip(len) =~= payload);
        assert(all.last() == rest.last());
        assert forall|i: int| 0 <= i < all.len() - 1 implies !(#[trigger] all[i]).end_stream by {
            if i > 0 {
                assert(all[i] == rest[i - 1]);
            }
        }
    }
}

/// The sum of a sequence of lengths.
pub open spec fn sum_of(lens: Seq<int>) -> int
    decreases lens.len(),
{
    if lens.len() == 0 {
        0
    } else {
        lens[0] + sum_of(lens.drop_first())
    }
}

} // verus!
