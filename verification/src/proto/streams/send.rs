//! The sending side of a connection: opening streams, sending frames on
//! them, and applying what the peer says of windows and limits.

use crate::error::{ConnectionError, Reason, User};
use crate::frame::{Data, Frame, Headers, Payload, Reset, Settings, StreamId, WindowUpdate};
use crate::frame::head::MAX_STREAM_ID;
use crate::proto::flow_control::{spec_floor_zero, FlowControl, WindowSize, MAX_WINDOW_SIZE};
use crate::proto::state::State;
use crate::proto::streams::model::Model;
use crate::proto::streams::prioritize::{DrainAction, DrainEvent, Prioritize};
use crate::proto::streams::store::{receive_links_kept, Key, Store};
use crate::proto::streams::stream::{wake, QueueId, Record, Stream};
use crate::proto::streams::{Config, Peer};
use crate::proto::Async;
use futures::task::Task;
use vstd::prelude::*;

verus! {

/// Manages state transitions related to outbound frames.
pub struct Send {
    /// Maximum number of locally initiated streams.
    max_streams: Option<usize>,
    /// Current number of locally initiated streams.
    num_streams: usize,
    /// Stream identifier to use for the next stream that is opened.
    next_stream_id: StreamId,
    /// Initial window size of locally initiated streams.
    init_window_sz: WindowSize,
    /// Task awaiting notification to open a new stream.
    blocked_open: Option<Task>,
    /// Prioritization layer.
    prioritize: Prioritize,
    /// Which end of the connection this is.
    peer: Peer,
}

impl Send {
    pub closed spec fn spec_max_streams(&self) -> Option<usize> {
        self.max_streams
    }

    pub closed spec fn spec_num_streams(&self) -> usize {
        self.num_streams
    }

    pub closed spec fn spec_next_stream_id(&self) -> StreamId {
        self.next_stream_id
    }

    pub closed spec fn spec_init_window_sz(&self) -> WindowSize {
        self.init_window_sz
    }

    pub closed spec fn spec_blocked_open(&self) -> Option<Task> {
        self.blocked_open
    }

    pub closed spec fn spec_peer(&self) -> Peer {
        self.peer
    }

    pub closed spec fn spec_prioritize(&self) -> Prioritize {
        self.prioritize
    }

    /// The sending side as a value.
    pub open spec fn model(&self, store: &Store) -> Model {
        self.spec_prioritize().model(store)
    }

    /// What holds between any two operations: the prioritization layer is
    /// well formed, and no stream's window lies further below the initial
    /// window size than the largest window there is.
    pub open spec fn wf(&self, store: &Store) -> bool {
        &&& self.spec_prioritize().wf(store)
        &&& 0 <= self.spec_init_window_sz()
        &&& self.model(store).windows_above(self.spec_init_window_sz() - MAX_WINDOW_SIZE)
    }

    /// Everything but the prioritization layer is as it was.
    pub open spec fn same_config(&self, other: &Send) -> bool {
        &&& self.spec_max_streams() == other.spec_max_streams()
        &&& self.spec_num_streams() == other.spec_num_streams()
        &&& self.spec_next_stream_id() == other.spec_next_stream_id()
        &&& self.spec_init_window_sz() == other.spec_init_window_sz()
        &&& self.spec_blocked_open() == other.spec_blocked_open()
        &&& self.spec_peer() == other.spec_peer()
    }

    /// Flow control stays within bounds: no stream has been granted more
    /// than its window holds or than it asked for, and what all streams
    /// have been granted, together with what the connection has left to
    /// grant, is within the connection window.
    pub proof fn lemma_flow_bounds(&self, store: &Store, key: Key)
        requires
            self.wf(store),
            store@.contains_key(key.0),
        ensures
            store@[key.0].send_flow.available <= spec_floor_zero(
                store@[key.0].send_flow.window_size as int,
            ),
            store@[key.0].send_flow.available <= store@[key.0].requested_send_capacity,
            self.model(store).total_available() + self.model(store).flow.available <= self.model(
                store,
            ).flow.window_size,
    {
        self.spec_prioritize().lemma_queues_in_store(store);
        assert(self.model(store).streams[key.0] == store@[key.0].record());
    }

    /// A stream that was made with the current initial window size can be
    /// added to the store.
    pub proof fn lemma_stream_inserted(&self, before: &Store, after: &Store, key: Key)
        requires
            self.wf(before),
            after.wf(),
            !before@.contains_key(key.0),
            after@ == before@.insert(key.0, after@[key.0]),
            after@[key.0].record().wf(),
            after@[key.0].send_flow.available == 0,
            after@[key.0].send_flow.window_size >= self.spec_init_window_sz() - MAX_WINDOW_SIZE,
            forall|q: QueueId| !after@[key.0].queued_in(q) && after@[key.0].next_in(q) is None,
            after@[key.0].pending_send.chain().len() == 0,
            after@[key.0].pending_send.spec_indices() is None,
        ensures
            self.wf(after),
            self.model(after) == (Model {
                streams: self.model(before).streams.insert(key.0, after@[key.0].record()),
                frames: self.model(before).frames.insert(key.0, Seq::empty()),
                ..self.model(before)
            }),
    {
        self.spec_prioritize().lemma_stream_inserted(before, after, key);
        let m0 = self.model(before);
        let m1 = self.model(after);
        assert forall|k: usize| #[trigger] m1.streams.contains_key(k) implies
            m1.streams[k].send_flow.window_size
            >= self.spec_init_window_sz() - MAX_WINDOW_SIZE by {
            if k != key.0 {
                assert(m0.streams.contains_key(k));
            }
        }
    }

    /// A stream that is in neither queue of the sending side can leave
    /// the store. Its pending frames, if it has any, are lost to the
    /// schedule.
    pub proof fn lemma_stream_removed(&self, before: &Store, after: &Store, key: Key)
        requires
            self.wf(before),
            after.wf(),
            before@.contains_key(key.0),
            after@ == before@.remove(key.0),
            !before@[key.0].queued_in(QueueId::Send),
            !before@[key.0].queued_in(QueueId::SendCapacity),
        ensures
            self.wf(after),
            self.model(after) == (Model {
                streams: self.model(before).streams.remove(key.0),
                frames: self.model(before).frames.remove(key.0),
                ..self.model(before)
            }),
    {
        self.spec_prioritize().lemma_stream_removed(before, after, key);
        let m0 = self.model(before);
        let m1 = self.model(after);
        assert forall|k: usize| #[trigger] m1.streams.contains_key(k) implies
            m1.streams[k].send_flow.window_size
            >= self.spec_init_window_sz() - MAX_WINDOW_SIZE by {
            assert(m0.streams.contains_key(k));
        }
    }

    /// The sending side of a new connection.
    pub fn new(config: &Config) -> (send: Send)
        requires
            0 <= config.init_local_window_sz,
        ensures
            send.spec_max_streams() == config.max_local_initiated,
            send.spec_num_streams() == 0,
            send.spec_next_stream_id() == (if config.peer is Server {
                StreamId(2)
            } else {
                StreamId(1)
            }),
            send.spec_init_window_sz() == config.init_local_window_sz,
            send.spec_blocked_open() is None,
            send.spec_peer() == config.peer,
            forall|store: Store|
                store.wf()
                    && store@ == Map::<usize, Stream>::empty() ==> #[trigger] send.wf(&store),
            forall|store: Store|
                store.wf() && store@ == Map::<usize, Stream>::empty() ==> #[trigger] send.model(
                    &store,
                ) == (Model {
                    streams: Map::empty(),
                    frames: Map::empty(),
                    pending_send: Seq::empty(),
                    pending_capacity: Seq::empty(),
                    flow: FlowControl {
                        window_size: config.init_local_window_sz,
                        available: config.init_local_window_sz,
                    },
                }),
    {
        let next_stream_id: u32 = if config.peer.is_server() {
            2
        } else {
            1
        };
        let send = Send {
            max_streams: config.max_local_initiated,
            num_streams: 0,
            next_stream_id: StreamId(next_stream_id),
            init_window_sz: config.init_local_window_sz,
            blocked_open: None,
            prioritize: Prioritize::new(config),
            peer: config.peer,
        };
        proof {
            assert forall|store: Store|
                store.wf() && store@ == Map::<usize, Stream>::empty() implies #[trigger] send.wf(
                &store,
            ) by {
                send.prioritize.lemma_new(&store);
            }
            assert forall|store: Store|
                store.wf() && store@ == Map::<usize, Stream>::empty() implies #[trigger] send.model(
                &store,
            ) == (Model {
                streams: Map::empty(),
                frames: Map::empty(),
                pending_send: Seq::empty(),
                pending_capacity: Seq::empty(),
                flow: FlowControl {
                    window_size: config.init_local_window_sz,
                    available: config.init_local_window_sz,
                },
            }) by {
                send.prioritize.lemma_new(&store);
            }
        }
        send
    }

    /// Returns the initial send window size.
    pub fn init_window_sz(&self) -> (sz: WindowSize)
        ensures
            sz == self.spec_init_window_sz(),
    {
        self.init_window_sz
    }

    /// The identifier that the next stream opened here will get.
    pub fn next_stream_id(&self) -> (id: StreamId)
        ensures
            id == self.spec_next_stream_id(),
    {
        self.next_stream_id
    }

    /// The number of streams opened here that are still counted.
    pub fn num_streams(&self) -> (n: usize)
        ensures
            n == self.spec_num_streams(),
    {
        self.num_streams
    }

    /// What the connection has left to grant.
    pub fn connection_available(&self) -> (sz: WindowSize)
        ensures
            forall|store: Store| sz == (#[trigger] self.model(&store)).flow.available,
    {
        self.prioritize.available()
    }

    /// The send window of the connection.
    pub fn connection_window(&self) -> (sz: WindowSize)
        ensures
            forall|store: Store| sz == (#[trigger] self.model(&store)).flow.window_size,
    {
        self.prioritize.window_size()
    }

    /// The limit on concurrently open streams, if the peer has set one.
    pub fn max_streams(&self) -> (max: Option<usize>)
        ensures
            max == self.spec_max_streams(),
    {
        self.max_streams
    }

    /// True where the peer's limit on concurrently open streams is
    /// reached.
    pub open spec fn spec_at_capacity(&self) -> bool {
        self.spec_max_streams() matches Some(max) && max <= self.spec_num_streams()
    }

    /// Tells whether a stream can be opened now. A server cannot open
    /// streams. Where the peer's limit is reached, `task` is kept and woken
    /// when a stream is given back.
    pub fn poll_open_ready(&mut self, task: Task) -> (res: Result<Async<()>, ConnectionError>)
        ensures
            final(self).spec_prioritize() == old(self).spec_prioritize(),
            final(self).spec_max_streams() == old(self).spec_max_streams(),
            final(self).spec_num_streams() == old(self).spec_num_streams(),
            final(self).spec_next_stream_id() == old(self).spec_next_stream_id(),
            final(self).spec_init_window_sz() == old(self).spec_init_window_sz(),
            final(self).spec_peer() == old(self).spec_peer(),
            if old(self).spec_peer() is Server {
                res == Err::<Async<()>, ConnectionError>(
                    ConnectionError::User(User::UnexpectedFrameType),
                ) && final(self).spec_blocked_open() == old(self).spec_blocked_open()
            } else if old(self).spec_at_capacity() {
                res == Ok::<Async<()>, ConnectionError>(Async::NotReady)
                    && final(self).spec_blocked_open() == Some(task)
            } else {
                res == Ok::<Async<()>, ConnectionError>(Async::Ready(()))
                    && final(self).spec_blocked_open() == old(self).spec_blocked_open()
            },
    {
        match self.ensure_can_open() {
            Err(e) => {
                return Err(e);
            },
            Ok(_) => {},
        }
        if let Some(max) = self.max_streams {
            if max <= self.num_streams {
                self.blocked_open = Some(task);
                return Ok(Async::NotReady);
            }
        }
        Ok(Async::Ready(()))
    }

    /// Opens a stream: returns its identifier and counts it. Fails,
    /// changing nothing, on a server, and with `Rejected` where the peer's
    /// limit on concurrently open streams is reached.
    pub fn open(&mut self) -> (res: Result<StreamId, ConnectionError>)
        requires
            old(self).spec_next_stream_id().0 <= MAX_STREAM_ID,
            old(self).spec_num_streams() < usize::MAX,
        ensures
            final(self).spec_prioritize() == old(self).spec_prioritize(),
            final(self).spec_max_streams() == old(self).spec_max_streams(),
            final(self).spec_init_window_sz() == old(self).spec_init_window_sz(),
            final(self).spec_blocked_open() == old(self).spec_blocked_open(),
            final(self).spec_peer() == old(self).spec_peer(),
            if old(self).spec_peer() is Server {
                res == Err::<StreamId, ConnectionError>(
                    ConnectionError::User(User::UnexpectedFrameType),
                ) && final(self).spec_num_streams() == old(self).spec_num_streams()
                    && final(self).spec_next_stream_id() == old(self).spec_next_stream_id()
            } else if old(self).spec_at_capacity() {
                res == Err::<StreamId, ConnectionError>(ConnectionError::User(User::Rejected))
                    && final(self).spec_num_streams() == old(self).spec_num_streams()
                        && final(self).spec_next_stream_id() == old(self).spec_next_stream_id()
            } else {
                res == Ok::<StreamId, ConnectionError>(old(self).spec_next_stream_id())
                    && final(self).spec_num_streams() == old(self).spec_num_streams() + 1
                    && final(self).spec_next_stream_id().0 == old(self).spec_next_stream_id().0 + 2
            },
    {
        match self.ensure_can_open() {
            Err(e) => {
                return Err(e);
            },
            Ok(_) => {},
        }
        if let Some(max) = self.max_streams {
            if max <= self.num_streams {
                return Err(ConnectionError::User(User::Rejected));
            }
        }
        let ret = self.next_stream_id;
        self.num_streams = self.num_streams + 1;
        self.next_stream_id.increment();
        Ok(ret)
    }

    /// Opens the stream's sending half with a HEADERS frame and queues the
    /// frame. Fails with `UnexpectedFrameType`, changing nothing, where the
    /// stream's state does not allow opening it.
    pub fn send_headers(
        &mut self,
        frame: Headers,
        store: &mut Store,
        key: Key,
        task: &mut Option<Task>,
    ) -> (res: Result<(), ConnectionError>)
        requires
            old(self).wf(old(store)),
            old(store)@.contains_key(key.0),
        ensures
            final(self).wf(final(store)),
            final(self).same_config(old(self)),
            final(store).ids() == old(store).ids(),
            receive_links_kept(old(store)@, final(store)@),
            match old(self).model(old(store)).send_headers(key.0, frame) {
                Some(m) => res is Ok
                    && final(self).model(final(store)) == m
                    && *final(task) is None,
                None => res == Err::<(), ConnectionError>(
                    ConnectionError::User(User::UnexpectedFrameType),
                ) && final(store)@ == old(store)@ && *final(self) == *old(self) && *final(task)
                    == *old(task),
            },
    {
        let ghost m0 = self.model(store);
        proof {
            self.prioritize.lemma_queues_in_store(store);
            assert(m0.streams[key.0] == store@[key.0].record());
        }
        let stream = store.resolve(key);
        let opened = stream.state.send_open(frame.is_end_stream());
        match opened {
            Err(e) => {
                assert(store@ =~= old(store)@);
                return Err(e);
            },
            Ok(_) => {},
        }
        proof {
            self.prioritize.lemma_stream_updated(old(store), store, key);
            m0.lemma_total_with_stream(key.0, store@[key.0].record());
        }
        let ghost m1 = self.model(store);
        self.prioritize.queue_frame(Frame::Headers(frame), store, key, task);
        proof {
            let m2 = self.model(store);
            assert(m2.streams.dom() =~= m0.streams.dom());
        }
        Ok(())
    }

    /// Resets the stream. Nothing happens if it is reset already, or
    /// closed with nothing left to write. Otherwise its pending frames are
    /// dropped, a RST_STREAM frame is queued in their place, and what the
    /// stream had been granted goes back to the connection and on to the
    /// streams that wait for capacity.
    pub fn send_reset(
        &mut self,
        reason: Reason,
        store: &mut Store,
        key: Key,
        task: &mut Option<Task>,
    )
        requires
            old(self).wf(old(store)),
            old(store)@.contains_key(key.0),
        ensures
            final(self).wf(final(store)),
            final(self).same_config(old(self)),
            final(store).ids() == old(store).ids(),
            receive_links_kept(old(store)@, final(store)@),
            final(self).model(final(store)) == old(self).model(old(store)).send_reset(
                key.0,
                reason,
            ),
            *final(task) == (if old(self).model(old(store)).reset_skipped(key.0) {
                *old(task)
            } else {
                None::<Task>
            }),
            old(self).model(old(store)).reset_skipped(key.0) ==> final(store)@ == old(store)@
                && *final(self) == *old(self),
    {
        let ghost m0 = self.model(store);
        proof {
            self.prioritize.lemma_queues_in_store(store);
            assert(m0.streams[key.0] == store@[key.0].record());
            assert(m0.frames[key.0] == store@[key.0].pending_send.items(
                self.prioritize.spec_buffer(),
            ));
            m0.lemma_windows_send_reset(key.0, reason);
            m0.lemma_windows_above(
                m0.send_reset(key.0, reason),
                self.init_window_sz - MAX_WINDOW_SIZE,
            );
        }
        let current = store.get(key);
        if current.state.is_reset() {
            return ;
        }
        if current.state.is_closed() && current.pending_send.is_empty() {
            return ;
        }
        let id = current.id;
        let stream = store.resolve(key);
        stream.state.set_reset(reason);
        proof {
            self.prioritize.lemma_stream_updated(old(store), store, key);
            m0.lemma_total_with_stream(key.0, store@[key.0].record());
        }
        self.prioritize.clear_queue(store, key);
        let ghost m1 = self.model(store);
        let ghost store1 = *store;
        proof {
            self.prioritize.lemma_queues_in_store(store);
            assert(m1.streams[key.0] == store@[key.0].record());
            m1.lemma_total_nonneg();
        }
        let stream = store.resolve(key);
        let available = stream.send_flow.available();
        stream.send_flow.claim_capacity(available);
        proof {
            self.prioritize.lemma_stream_updated(&store1, store, key);
            m1.lemma_total_with_stream(key.0, store@[key.0].record());
        }
        let frame = Reset::new(id, reason);
        self.prioritize.queue_frame(Frame::Reset(frame), store, key, task);
        proof {
            let m2 = self.model(store);
            assert(m2.total_available() == m1.total_available() - available);
            let r = m0.streams[key.0];
            let expected = m0.with_stream(
                key.0,
                Record {
                    state: r.state.spec_set_reset(reason),
                    send_flow: FlowControl { available: 0, ..r.send_flow },
                    ..r
                },
            ).clear_queue(key.0).queue_frame(
                key.0,
                Frame::Reset(Reset { stream_id: r.id, error_code: reason }),
            );
            assert(m2.streams =~= expected.streams);
            assert(m2.frames =~= expected.frames);
            assert(m2 == expected);
        }
        self.prioritize.assign_connection_capacity(available, store);
    }

    /// Takes a DATA frame for sending: see `Prioritize::send_data`.
    pub fn send_data(
        &mut self,
        frame: Data<Payload>,
        store: &mut Store,
        key: Key,
        task: &mut Option<Task>,
    ) -> (res: Result<(), ConnectionError>)
        requires
            old(self).wf(old(store)),
            old(store)@.contains_key(key.0),
        ensures
            final(self).wf(final(store)),
            final(self).same_config(old(self)),
            final(store).ids() == old(store).ids(),
            receive_links_kept(old(store)@, final(store)@),
            match old(self).model(old(store)).send_data_error(key.0, frame.data@.len() as int) {
                Some(e) => res == Err::<(), ConnectionError>(e) && final(store)@ == old(store)@
                    && *final(self) == *old(self) && *final(task) == *old(task),
                None => res is Ok && final(self).model(final(store)) == old(self).model(
                    old(store),
                ).send_data(key.0, frame) && *final(task) == (if old(self).model(
                    old(store),
                ).send_data_wakes(key.0, frame) {
                    None::<Task>
                } else {
                    *old(task)
                }),
            },
    {
        proof {
            let m0 = self.model(store);
            self.prioritize.lemma_queues_in_store(store);
            m0.lemma_windows_send_data(key.0, frame);
            m0.lemma_windows_above(
                m0.send_data(key.0, frame),
                self.init_window_sz - MAX_WINDOW_SIZE,
            );
        }
        self.prioritize.send_data(frame, store, key, task)
    }

    /// Closes the stream's sending half with a frame of trailers and
    /// queues the frame. Fails with `UnexpectedFrameType`, changing
    /// nothing, where the stream is not sending any more.
    pub fn send_trailers(
        &mut self,
        frame: Headers,
        store: &mut Store,
        key: Key,
        task: &mut Option<Task>,
    ) -> (res: Result<(), ConnectionError>)
        requires
            old(self).wf(old(store)),
            old(store)@.contains_key(key.0),
        ensures
            final(self).wf(final(store)),
            final(self).same_config(old(self)),
            final(store).ids() == old(store).ids(),
            receive_links_kept(old(store)@, final(store)@),
            match old(self).model(old(store)).send_trailers(key.0, frame) {
                Some(m) => res is Ok
                    && final(self).model(final(store)) == m
                    && *final(task) is None,
                None => res == Err::<(), ConnectionError>(
                    ConnectionError::User(User::UnexpectedFrameType),
                ) && final(store)@ == old(store)@ && *final(self) == *old(self) && *final(task)
                    == *old(task),
            },
    {
        let ghost m0 = self.model(store);
        proof {
            self.prioritize.lemma_queues_in_store(store);
            assert(m0.streams[key.0] == store@[key.0].record());
        }
        if !store.get(key).state.is_send_streaming() {
            return Err(ConnectionError::User(User::UnexpectedFrameType));
        }
        let stream = store.resolve(key);
        let closed = stream.state.send_close();
        proof {
            self.prioritize.lemma_stream_updated(old(store), store, key);
            m0.lemma_total_with_stream(key.0, store@[key.0].record());
        }
        self.prioritize.queue_frame(Frame::Headers(frame), store, key, task);
        proof {
            let m2 = self.model(store);
            assert(m2.streams.dom() =~= m0.streams.dom());
        }
        Ok(())
    }

    /// One step of draining the pending frames into the codec: see
    /// `Prioritize::poll_complete`.
    pub fn poll_complete(&mut self, store: &mut Store, event: DrainEvent) -> (action: DrainAction)
        requires
            old(self).wf(old(store)),
            Model::reclaims(event.spec_last()) ==> old(store)@.contains_key(
                event.spec_last().unwrap().data.stream.0,
            ),
        ensures
            final(self).wf(final(store)),
            final(self).same_config(old(self)),
            final(store).ids() == old(store).ids(),
            receive_links_kept(old(store)@, final(store)@),
            final(self).model(final(store)) == old(self).model(old(store)).drain(event).model,
            action == old(self).model(old(store)).drain(event).action,
            !Model::reclaims(event.spec_last()) && (event is Flushed || old(self).model(
                old(store),
            ).pending_send.len() == 0) ==> final(store)@ == old(store)@
                && *final(self) == *old(self),
    {
        proof {
            let m0 = self.model(store);
            self.prioritize.lemma_queues_in_store(store);
            m0.lemma_windows_drain(event);
            m0.lemma_windows_above(m0.drain(event).model, self.init_window_sz - MAX_WINDOW_SIZE);
        }
        self.prioritize.poll_complete(store, event)
    }

    /// Asks for capacity to send data: see `Prioritize::reserve_capacity`.
    pub fn reserve_capacity(&mut self, capacity: WindowSize, store: &mut Store, key: Key)
        requires
            old(self).wf(old(store)),
            old(store)@.contains_key(key.0),
            0 <= capacity,
            capacity + old(store)@[key.0].buffered_send_data <= MAX_WINDOW_SIZE,
        ensures
            final(self).wf(final(store)),
            final(self).same_config(old(self)),
            final(store).ids() == old(store).ids(),
            receive_links_kept(old(store)@, final(store)@),
            final(self).model(final(store)) == old(self).model(old(store)).reserve_capacity(
                key.0,
                capacity as int,
            ),
            capacity + old(store)@[key.0].buffered_send_data
                <= old(store)@[key.0].requested_send_capacity ==> final(store)@ == old(store)@
                && *final(self) == *old(self),
    {
        proof {
            let m0 = self.model(store);
            self.prioritize.lemma_queues_in_store(store);
            m0.lemma_windows_reserve_capacity(key.0, capacity as int);
            m0.lemma_windows_above(
                m0.reserve_capacity(key.0, capacity as int),
                self.init_window_sz - MAX_WINDOW_SIZE,
            );
        }
        self.prioritize.reserve_capacity(capacity, store, key)
    }

    /// How much the stream can send beyond what it has buffered.
    pub open spec fn spec_capacity(record: Record) -> WindowSize {
        if record.send_flow.available <= record.buffered_send_data {
            0
        } else {
            (record.send_flow.available - record.buffered_send_data) as WindowSize
        }
    }

    /// Reports capacity that was granted since the last report. A stream
    /// that is not sending gets `None`; a stream without news is told to
    /// wait; otherwise the news is taken and the current capacity
    /// returned.
    pub fn poll_capacity(&mut self, store: &mut Store, key: Key) -> (res: Result<
        Async<Option<WindowSize>>,
        ConnectionError,
    >)
        requires
            old(self).wf(old(store)),
            old(store)@.contains_key(key.0),
        ensures
            final(self).wf(final(store)),
            final(self).same_config(old(self)),
            final(store).ids() == old(store).ids(),
            receive_links_kept(old(store)@, final(store)@),
            ({
                let m = old(self).model(old(store));
                let r = m.streams[key.0];
                if !r.state.spec_is_send_streaming() {
                    res == Ok::<Async<Option<WindowSize>>, ConnectionError>(Async::Ready(None))
                        && final(store)@ == old(store)@ && *final(self) == *old(self)
                } else if !r.send_capacity_inc {
                    res == Ok::<Async<Option<WindowSize>>, ConnectionError>(Async::NotReady)
                        && final(store)@ == old(store)@ && *final(self) == *old(self)
                } else {
                    res == Ok::<Async<Option<WindowSize>>, ConnectionError>(
                        Async::Ready(Some(Send::spec_capacity(r))),
                    ) && final(self).model(final(store)) == m.with_stream(
                        key.0,
                        Record { send_capacity_inc: false, ..r },
                    )
                }
            }),
    {
        let ghost m0 = self.model(store);
        proof {
            self.prioritize.lemma_queues_in_store(store);
            assert(m0.streams[key.0] == store@[key.0].record());
        }
        let current = store.get(key);
        if !current.state.is_send_streaming() {
            return Ok(Async::Ready(None));
        }
        if !current.send_capacity_inc {
            return Ok(Async::NotReady);
        }
        let stream = store.resolve(key);
        stream.send_capacity_inc = false;
        proof {
            self.prioritize.lemma_stream_updated(old(store), store, key);
            m0.lemma_total_with_stream(key.0, store@[key.0].record());
        }
        Ok(Async::Ready(Some(self.capacity(store, key))))
    }

    /// Current available stream send capacity.
    pub fn capacity(&self, store: &Store, key: Key) -> (sz: WindowSize)
        requires
            self.wf(store),
            store@.contains_key(key.0),
        ensures
            sz == Send::spec_capacity(store@[key.0].record()),
    {
        proof {
            self.prioritize.lemma_queues_in_store(store);
            assert(self.model(store).streams[key.0] == store@[key.0].record());
        }
        let stream = store.get(key);
        let available = stream.send_flow.available();
        let buffered = stream.buffered_send_data;
        if available <= buffered {
            0
        } else {
            available - buffered
        }
    }

    /// Applies a WINDOW_UPDATE frame for the connection: see
    /// `Prioritize::recv_connection_window_update`.
    pub fn recv_connection_window_update(&mut self, frame: WindowUpdate, store: &mut Store) -> (res:
        Result<(), ConnectionError>)
        requires
            old(self).wf(old(store)),
        ensures
            final(self).wf(final(store)),
            final(self).same_config(old(self)),
            final(store).ids() == old(store).ids(),
            receive_links_kept(old(store)@, final(store)@),
            match old(self).model(old(store)).recv_connection_window_update(
                frame.size_increment as int,
            ) {
                Some(m) => res is Ok && final(self).model(final(store)) == m,
                None => res == Err::<(), ConnectionError>(
                    ConnectionError::Proto(Reason::FlowControlError),
                ) && final(store)@ == old(store)@ && *final(self) == *old(self),
            },
    {
        let ghost m0 = self.model(store);
        proof {
            self.prioritize.lemma_queues_in_store(store);
            m0.lemma_total_nonneg();
        }
        let inc = frame.size_increment();
        if inc > MAX_WINDOW_SIZE as u32 {
            return Err(ConnectionError::Proto(Reason::FlowControlError));
        }
        proof {
            if m0.recv_connection_window_update(inc as int) is Some {
                let m1 = Model { flow: m0.flow.spec_inc_window(inc as int).unwrap(), ..m0 };
                m1.lemma_windows_connection_capacity(inc as int);
                m0.lemma_windows_above(
                    m1.assign_connection_capacity(inc as int),
                    self.init_window_sz - MAX_WINDOW_SIZE,
                );
            }
        }
        self.prioritize.recv_connection_window_update(inc as WindowSize, store)
    }

    /// Applies a window update for the stream. A stream whose window would
    /// pass the largest window there is, is reset with a flow-control
    /// error instead.
    pub fn recv_stream_window_update(
        &mut self,
        sz: WindowSize,
        store: &mut Store,
        key: Key,
        task: &mut Option<Task>,
    ) -> (res: Result<(), ConnectionError>)
        requires
            old(self).wf(old(store)),
            old(store)@.contains_key(key.0),
            0 <= sz,
        ensures
            res is Ok,
            final(self).wf(final(store)),
            final(self).same_config(old(self)),
            final(store).ids() == old(store).ids(),
            receive_links_kept(old(store)@, final(store)@),
            final(self).model(final(store)) == old(self).model(old(store)).window_update_or_reset(
                key.0,
                sz as int,
            ),
            *final(task) == (if old(self).model(old(store)).recv_stream_window_update(
                key.0,
                sz as int,
            ) is None && !old(self).model(old(store)).reset_skipped(key.0) {
                None::<Task>
            } else {
                *old(task)
            }),
            old(self).model(old(store)).recv_stream_window_update(key.0, sz as int) is None
                && old(self).model(old(store)).reset_skipped(key.0) ==> final(store)@
                == old(store)@ && *final(self) == *old(self),
    {
        proof {
            let m0 = self.model(store);
            self.prioritize.lemma_queues_in_store(store);
            if m0.recv_stream_window_update(key.0, sz as int) is Some {
                m0.lemma_windows_stream_update(key.0, sz as int);
                m0.lemma_windows_above(
                    m0.recv_stream_window_update(key.0, sz as int).unwrap(),
                    self.init_window_sz - MAX_WINDOW_SIZE,
                );
            }
        }
        match self.prioritize.recv_stream_window_update(sz, store, key) {
            Err(_) => {
                self.send_reset(Reason::FlowControlError, store, key, task);
            },
            Ok(_) => {},
        }
        Ok(())
    }

    /// Fails with a protocol error exactly where no stream with this
    /// identifier has been opened here yet.
    pub fn ensure_not_idle(&self, id: StreamId) -> (res: Result<(), ConnectionError>)
        ensures
            res == (if id.0 >= self.spec_next_stream_id().0 {
                Err::<(), ConnectionError>(ConnectionError::Proto(Reason::ProtocolError))
            } else {
                Ok::<(), ConnectionError>(())
            }),
    {
        if id.0 >= self.next_stream_id.0 {
            return Err(ConnectionError::Proto(Reason::ProtocolError));
        }
        Ok(())
    }

    /// Gives a stream back to the count of open streams, and wakes the
    /// task that waits to open one if there is room now.
    pub fn dec_num_streams(&mut self)
        requires
            old(self).spec_num_streams() > 0,
        ensures
            final(self).spec_num_streams() == old(self).spec_num_streams() - 1,
            final(self).spec_blocked_open() == (if final(self).spec_at_capacity() {
                old(self).spec_blocked_open()
            } else {
                None::<Task>
            }),
            final(self).spec_prioritize() == old(self).spec_prioritize(),
            final(self).spec_max_streams() == old(self).spec_max_streams(),
            final(self).spec_next_stream_id() == old(self).spec_next_stream_id(),
            final(self).spec_init_window_sz() == old(self).spec_init_window_sz(),
            final(self).spec_peer() == old(self).spec_peer(),
    {
        self.num_streams = self.num_streams - 1;
        let room = match self.max_streams {
            Some(max) => self.num_streams < max,
            None => self.num_streams < usize::MAX,
        };
        if room {
            if let Some(task) = self.blocked_open.take() {
                wake(task);
            }
        }
    }

    /// Fails with `UnexpectedFrameType` on a server, which cannot open
    /// streams on its own.
    fn ensure_can_open(&self) -> (res: Result<(), ConnectionError>)
        ensures
            res == (if self.spec_peer() is Server {
                Err::<(), ConnectionError>(ConnectionError::User(User::UnexpectedFrameType))
            } else {
                Ok::<(), ConnectionError>(())
            }),
    {
        if self.peer.is_server() {
            return Err(ConnectionError::User(User::UnexpectedFrameType));
        }
        Ok(())
    }

    /// Lowers the send window of every stream by `dec`.
    fn shrink_windows(&mut self, dec: WindowSize, store: &mut Store)
        requires
            old(self).spec_prioritize().wf(old(store)),
            0 <= dec,
            old(self).model(old(store)).windows_above(dec - MAX_WINDOW_SIZE),
        ensures
            final(self).spec_prioritize().wf(final(store)),
            final(self).same_config(old(self)),
            final(store).ids() == old(store).ids(),
            receive_links_kept(old(store)@, final(store)@),
            final(self).model(final(store)) == old(self).model(old(store)).shrunk(dec as int),
    {
        let ghost m0 = self.model(store);
        let keys = store.keys();
        proof {
            self.prioritize.lemma_queues_in_store(store);
            assert(m0.shrunk_prefix(keys@, 0, dec as int) =~= m0) by {
                assert(keys@.take(0) =~= Seq::<Key>::empty());
                assert(m0.shrunk_prefix(keys@, 0, dec as int).streams =~= m0.streams);
            }
        }
        let mut i: usize = 0;
        while i < keys.len()
            invariant
                i <= keys.len(),
                0 <= dec,
                self.spec_prioritize().wf(store),
                self.same_config(old(self)),
                store.ids() == old(store).ids(),
                receive_links_kept(old(store)@, store@),
                store@.dom() == old(store)@.dom(),
                m0 == old(self).model(old(store)),
                m0.streams.dom() == old(store)@.dom(),
                m0.windows_above(dec - MAX_WINDOW_SIZE),
                keys@.no_duplicates(),
                forall|j: int|
                    0 <= j < keys@.len() ==> old(store)@.contains_key(#[trigger] keys@[j].0),
                self.model(store) == m0.shrunk_prefix(keys@, i as int, dec as int),
            decreases keys.len() - i,
        {
            let key = keys[i];
            let ghost m1 = self.model(store);
            let ghost store1 = *store;
            proof {
                let t0 = keys@.take(i as int);
                assert(!t0.contains(key)) by {
                    if t0.contains(key) {
                        let j = choose|j: int| 0 <= j < t0.len() && t0[j] == key;
                        assert(keys@[j] == keys@[i as int]);
                    }
                }
                assert(m0.streams.contains_key(key.0));
                self.prioritize.lemma_queues_in_store(store);
                assert(m1.streams[key.0] == store@[key.0].record());
                assert(m1.streams[key.0] == m0.streams[key.0]);
            }
            let stream = store.resolve(key);
            stream.send_flow.dec_window(dec);
            proof {
                self.prioritize.lemma_stream_updated(&store1, store, key);
                m1.lemma_total_with_stream(key.0, store@[key.0].record());
                assert(store@.dom() =~= store1@.dom());
                let m2 = self.model(store);
                let t0 = keys@.take(i as int);
                let t1 = keys@.take(i + 1);
                assert(t1 =~= t0.push(key));
                assert(m2.streams =~= m0.shrunk_prefix(keys@, i + 1, dec as int).streams) by {
                    assert forall|k: usize| m0.streams.contains_key(k) implies
                        #[trigger] m2.streams[k]
                        == m0.shrunk_prefix(keys@, i + 1, dec as int).streams[k] by {
                        if k != key.0 {
                            if t1.contains(Key(k)) {
                                let j = choose|j: int| 0 <= j < t1.len() && t1[j] == Key(k);
                                assert(t0[j] == Key(k));
                            }
                            if t0.contains(Key(k)) {
                                let j = choose|j: int| 0 <= j < t0.len() && t0[j] == Key(k);
                                assert(t1[j] == Key(k));
                            }
                        } else {
                            assert(t1[i as int] == key);
                        }
                    }
                }
            }
            i = i + 1;
        }
        proof {
            assert(keys@.take(keys@.len() as int) =~= keys@);
            assert(m0.shrunk_prefix(keys@, keys@.len() as int, dec as int).streams =~= m0.shrunk(
                dec as int,
            ).streams);
        }
    }

    /// Raises the send window of every stream by `inc`; a stream whose
    /// window cannot take it is reset.
    fn grow_windows(&mut self, inc: WindowSize, store: &mut Store, task: &mut Option<Task>)
        requires
            old(self).wf(old(store)),
            0 <= inc,
        ensures
            final(self).wf(final(store)),
            final(self).same_config(old(self)),
            final(store).ids() == old(store).ids(),
            receive_links_kept(old(store)@, final(store)@),
            old(self).model(old(store)).grown(final(self).model(final(store)), inc as int),
            *final(task) is None || *final(task) == *old(task),
    {
        let ghost m0 = self.model(store);
        let keys = store.keys();
        proof {
            self.prioritize.lemma_queues_in_store(store);
        }
        let mut i: usize = 0;
        while i < keys.len()
            invariant
                i <= keys.len(),
                0 <= inc,
                self.wf(store),
                self.same_config(old(self)),
                store.ids() == old(store).ids(),
                receive_links_kept(old(store)@, store@),
                store@.dom() == old(store)@.dom(),
                m0 == old(self).model(old(store)),
                m0.streams.dom() == old(store)@.dom(),
                self.model(store).streams.dom() == m0.streams.dom(),
                keys@.no_duplicates(),
                forall|j: int|
                    0 <= j < keys@.len() ==> old(store)@.contains_key(#[trigger] keys@[j].0),
                forall|j: int|
                    0 <= j < i ==> m0.grown_at(self.model(store), (#[trigger] keys@[j]).0, inc as int),
                forall|j: int|
                    i <= j < keys@.len() ==> m0.kept_at(self.model(store), (#[trigger] keys@[j]).0),
                *task is None || *task == *old(task),
            decreases keys.len() - i,
        {
            let key = keys[i];
            let ghost m1 = self.model(store);
            proof {
                self.prioritize.lemma_queues_in_store(store);
                m1.lemma_update_or_reset(key.0, inc as int);
                assert(m0.kept_at(m1, keys@[i as int].0));
            }
            let updated = self.recv_stream_window_update(inc, store, key, task);
            proof {
                let m2 = self.model(store);
                self.prioritize.lemma_queues_in_store(store);
                assert forall|j: int| 0 <= j < i + 1 implies m0.grown_at(
                    m2,
                    (#[trigger] keys@[j]).0,
                    inc as int,
                ) by {
                    if j < i {
                        assert(keys@[j] != keys@[i as int]);
                        assert(m1.streams.contains_key(keys@[j].0));
                        assert(m1.kept_at(m2, keys@[j].0));
                    }
                }
                assert forall|j: int| i + 1 <= j < keys@.len() implies m0.kept_at(
                    m2,
                    (#[trigger] keys@[j]).0,
                ) by {
                    assert(keys@[j] != keys@[i as int]);
                    assert(m1.streams.contains_key(keys@[j].0));
                    assert(m1.kept_at(m2, keys@[j].0));
                }
            }
            i = i + 1;
        }
        proof {
            let m2 = self.model(store);
            assert forall|k: usize| #[trigger] m0.streams.contains_key(k) implies m0.grown_at(
                m2,
                k,
                inc as int,
            ) by {
                assert(keys@.contains(Key(k)));
                let j = choose|j: int| 0 <= j < keys@.len() && keys@[j] == Key(k);
                assert(m0.grown_at(m2, keys@[j].0, inc as int));
            }
        }
    }

    /// Applies the peer's settings. The limit on concurrently open streams
    /// is taken over. A change of the initial window size moves the send
    /// window of every stream by the difference: downwards, a window may
    /// become negative, and what was granted beyond it is withdrawn;
    /// upwards, as a window update does, a stream whose window cannot take
    /// the difference being reset. An initial window size beyond the
    /// largest window there is, is refused with a flow-control error, and
    /// nothing changes.
    pub fn apply_remote_settings(
        &mut self,
        settings: &Settings,
        store: &mut Store,
        task: &mut Option<Task>,
    ) -> (res: Result<(), ConnectionError>)
        requires
            old(self).wf(old(store)),
        ensures
            final(self).wf(final(store)),
            final(store).ids() == old(store).ids(),
            receive_links_kept(old(store)@, final(store)@),
            final(self).spec_num_streams() == old(self).spec_num_streams(),
            final(self).spec_next_stream_id() == old(self).spec_next_stream_id(),
            final(self).spec_blocked_open() == old(self).spec_blocked_open(),
            final(self).spec_peer() == old(self).spec_peer(),
            match settings.initial_window_size {
                Some(val) => if val > MAX_WINDOW_SIZE {
                    &&& res == Err::<(), ConnectionError>(
                        ConnectionError::Proto(Reason::FlowControlError),
                    )
                    &&& final(store)@ == old(store)@
                    &&& *final(self) == *old(self)
                    &&& *final(task) == *old(task)
                } else {
                    &&& res is Ok
                    &&& final(self).spec_max_streams() == Send::spec_new_limit(
                        old(self).spec_max_streams(),
                        *settings,
                    )
                    &&& final(self).spec_init_window_sz() == val
                    &&& val == old(self).spec_init_window_sz() ==> final(store)@ == old(store)@
                        && final(self).spec_prioritize() == old(self).spec_prioritize()
                        && *final(task) == *old(task)
                    &&& val < old(self).spec_init_window_sz() ==> final(self).model(final(store))
                        == old(self).model(old(store)).shrunk(
                        old(self).spec_init_window_sz() - val,
                    ) && *final(task) == *old(task)
                    &&& val > old(self).spec_init_window_sz() ==> old(self).model(
                        old(store),
                    ).grown(
                        final(self).model(final(store)),
                        val - old(self).spec_init_window_sz(),
                    ) && (*final(task) is None || *final(task) == *old(task))
                },
                None => {
                    &&& res is Ok
                    &&& final(self).spec_max_streams() == Send::spec_new_limit(
                        old(self).spec_max_streams(),
                        *settings,
                    )
                    &&& final(self).spec_init_window_sz() == old(self).spec_init_window_sz()
                    &&& final(store)@ == old(store)@
                    &&& final(self).spec_prioritize() == old(self).spec_prioritize()
                    &&& *final(task) == *old(task)
                },
            },
    {
        if let Some(val) = settings.initial_window_size() {
            if val > MAX_WINDOW_SIZE as u32 {
                return Err(ConnectionError::Proto(Reason::FlowControlError));
            }
        }
        if let Some(val) = settings.max_concurrent_streams() {
            self.max_streams = Some(val as usize);
        }
        if let Some(val) = settings.initial_window_size() {
            let val = val as WindowSize;
            let old_val = self.init_window_sz;
            let ghost m0 = self.model(store);
            if val < old_val {
                let dec = old_val - val;
                proof {
                    m0.lemma_shrunk(dec as int, old_val as int);
                }
                self.shrink_windows(dec, store);
            } else if val > old_val {
                let inc = val - old_val;
                self.grow_windows(inc, store, task);
                proof {
                    m0.lemma_grown(self.model(store), inc as int, old_val as int);
                }
            }
            self.init_window_sz = val;
        }
        Ok(())
    }
}

impl Send {
    /// The limit on open streams after the peer's settings: the one that
    /// the settings name, or else the one that stood.
    pub open spec fn spec_new_limit(limit: Option<usize>, settings: Settings) -> Option<usize> {
        match settings.max_concurrent_streams {
            Some(max) => Some(max as usize),
            None => limit,
        }
    }
}

impl Model {
    /// Every stream's send window lowered by `dec`.
    pub open spec fn shrunk(self, dec: int) -> Model {
        Model {
            streams: self.streams.map_values(
                |r: Record| Record { send_flow: r.send_flow.spec_dec_window(dec), ..r },
            ),
            ..self
        }
    }

    /// The send windows of the first `n` streams of `keys` lowered by
    /// `dec`.
    pub open spec fn shrunk_prefix(self, keys: Seq<Key>, n: int, dec: int) -> Model {
        Model {
            streams: Map::new(
                |k: usize| self.streams.contains_key(k),
                |k: usize|
                    if keys.take(n).contains(Key(k)) {
                        Record {
                            send_flow: self.streams[k].send_flow.spec_dec_window(dec),
                            ..self.streams[k]
                        }
                    } else {
                        self.streams[k]
                    },
            ),
            ..self
        }
    }

    /// The stream's identifier, window, state, request, buffered data and
    /// pending frames are as they were.
    pub open spec fn kept_at(self, after: Model, k: usize) -> bool {
        &&& after.streams[k].id == self.streams[k].id
        &&& after.streams[k].send_flow.window_size == self.streams[k].send_flow.window_size
        &&& after.streams[k].state == self.streams[k].state
        &&& after.streams[k].requested_send_capacity == self.streams[k].requested_send_capacity
        &&& after.streams[k].buffered_send_data == self.streams[k].buffered_send_data
        &&& after.frames[k] == self.frames[k]
    }

    /// What a raise of every window by `inc` does to one stream, whatever
    /// the order in which the streams are visited.
    ///
    /// A window that can take `inc` has grown by it, and the stream's state
    /// and pending frames are as they were. A window that cannot take it is
    /// as it was; the stream is reset with a flow-control error, and a
    /// RST_STREAM frame is all that it has pending, unless a reset is
    /// skipped on it, in which case nothing of this changes. What the
    /// stream asks for and has buffered is as it was in every case. How
    /// much it has been granted depends on the order: a stream that waits
    /// for capacity, reset or not, may be granted some when another stream
    /// is reset.
    pub open spec fn grown_at(self, after: Model, k: usize, inc: int) -> bool {
        let before = self.streams[k];
        let now = after.streams[k];
        &&& now.id == before.id
        &&& now.requested_send_capacity == before.requested_send_capacity
        &&& now.buffered_send_data == before.buffered_send_data
        &&& if before.send_flow.window_size + inc <= MAX_WINDOW_SIZE {
            &&& now.send_flow.window_size == before.send_flow.window_size + inc
            &&& now.state == before.state
            &&& after.frames[k] == self.frames[k]
        } else if self.reset_skipped(k) {
            &&& now.send_flow.window_size == before.send_flow.window_size
            &&& now.state == before.state
            &&& after.frames[k] == self.frames[k]
        } else {
            &&& now.send_flow.window_size == before.send_flow.window_size
            &&& now.state == State::Reset(Reason::FlowControlError)
            &&& after.frames[k] == seq![
                Frame::<Payload>::Reset(
                    Reset { stream_id: before.id, error_code: Reason::FlowControlError },
                ),
            ]
        }
    }

    /// `after` holds the same streams, each with its window grown by `inc`
    /// or else reset.
    pub open spec fn grown(self, after: Model, inc: int) -> bool {
        &&& after.streams.dom() == self.streams.dom()
        &&& forall|k: usize| #[trigger]
            self.streams.contains_key(k) ==> self.grown_at(after, k, inc)
    }

    /// A window update or reset of one stream leaves the window, state and
    /// pending frames of every other stream as they were.
    pub proof fn lemma_update_or_reset(self, key: usize, inc: int)
        requires
            self.streams.contains_key(key),
            inc >= 0,
            forall|i: int|
                0 <= i < self.pending_capacity.len() ==> self.streams.contains_key(
                    #[trigger] self.pending_capacity[i].0,
                ),
        ensures
            self.window_update_or_reset(key, inc).streams.dom() == self.streams.dom(),
            self.grown_at(self.window_update_or_reset(key, inc), key, inc),
            forall|k: usize|
                k != key && self.streams.contains_key(k) ==> #[trigger] self.kept_at(
                    self.window_update_or_reset(key, inc),
                    k,
                ),
    {
        let after = self.window_update_or_reset(key, inc);
        if self.recv_stream_window_update(key, inc) is Some {
            self.lemma_windows_stream_update(key, inc);
        } else {
            self.lemma_windows_send_reset(key, Reason::FlowControlError);
        }
        assert forall|k: usize| k != key
            && self.streams.contains_key(k) implies #[trigger] self.kept_at(
            after,
            k,
        ) by {
            assert(self.streams[k].granted(after.streams[k]));
        }
    }

    /// Windows that lie no further below `init` than the largest window
    /// there is, lie no further below `init - dec` after being lowered by
    /// `dec`.
    pub proof fn lemma_shrunk(self, dec: int, init: int)
        requires
            0 <= dec <= init <= MAX_WINDOW_SIZE,
            self.windows_above(init - MAX_WINDOW_SIZE),
        ensures
            self.windows_above(dec - MAX_WINDOW_SIZE),
            self.shrunk(dec).windows_above(init - dec - MAX_WINDOW_SIZE),
    {
        assert forall|k: usize| #[trigger] self.shrunk(dec).streams.contains_key(k) implies
            self.shrunk(
            dec,
        ).streams[k].send_flow.window_size >= init - dec - MAX_WINDOW_SIZE by {
            assert(self.streams.contains_key(k));
        }
    }

    /// Windows that lie no further below `init` than the largest window
    /// there is, lie no further below `init + inc` after growing by `inc`.
    pub proof fn lemma_grown(self, after: Model, inc: int, init: int)
        requires
            0 <= inc,
            0 <= init,
            init + inc <= MAX_WINDOW_SIZE,
            self.grown(after, inc),
            self.windows_above(init - MAX_WINDOW_SIZE),
        ensures
            after.windows_above(init + inc - MAX_WINDOW_SIZE),
    {
        assert forall|k: usize| #[trigger] after.streams.contains_key(k) implies
            after.streams[k].send_flow.window_size
            >= init + inc - MAX_WINDOW_SIZE by {
            assert(self.streams.contains_key(k));
            assert(self.grown_at(after, k, inc));
        }
    }

    /// Applies a window update to the stream, or resets the stream with a
    /// flow-control error where its window would overflow.
    pub open spec fn window_update_or_reset(self, key: usize, inc: int) -> Model {
        match self.recv_stream_window_update(key, inc) {
            Some(m) => m,
            None => self.send_reset(key, Reason::FlowControlError),
        }
    }
}

} // verus!
