//! Decides which frame is written next: streams are served first come
//! first served, DATA frames are cut to what the codec takes and to what
//! flow control allows, and the connection window is shared out among the
//! streams that ask for capacity.

use crate::error::{ConnectionError, Reason, User};
use crate::frame::{Data, Frame, Payload};
use crate::proto::flow_control::{FlowControl, WindowSize, MAX_WINDOW_SIZE};
use crate::proto::streams::buffer::{disjoint, touches_only, Buffer, Slot};
use crate::proto::streams::model::{enqueue, Model};
use crate::proto::streams::prioritized::Prioritized;
use crate::proto::streams::store::{receive_links_kept, same_but_links, Key, Queue, Store};
use crate::proto::streams::stream::{
    wake, NextSend, NextSendCapacity, QueueId, Record, Stream,
};
use crate::proto::streams::Config;
use futures::task::Task;
use vstd::prelude::*;

verus! {

/// The records of the streams in a store.
pub open spec fn records(m: Map<usize, Stream>) -> Map<usize, Record> {
    m.map_values(|s: Stream| s.record())
}

/// The pending frames of the streams in a store, read from the arena.
pub open spec fn frames_of(
    m: Map<usize, Stream>,
    buf: Map<usize, Slot<Frame<Payload>>>,
) -> Map<usize, Seq<Frame<Payload>>> {
    m.map_values(|s: Stream| s.pending_send.items(buf))
}

/// Every stream's frame queue is a chain in the arena, and no two of them
/// share a slot.
pub open spec fn deques_wf(m: Map<usize, Stream>, buf: Map<usize, Slot<Frame<Payload>>>) -> bool {
    &&& forall|k: usize| #[trigger] m.contains_key(k) ==> m[k].pending_send.wf(buf)
    &&& forall|j: usize, k: usize|
        #![trigger m.contains_key(j), m.contains_key(k)]
        m.contains_key(j) && m.contains_key(k) && j != k ==> disjoint(
            m[j].pending_send.chain(),
            m[k].pending_send.chain(),
        )
}

/// Queue links are no part of what the sending side is specified over.
pub proof fn lemma_links_changed(
    before: Map<usize, Stream>,
    after: Map<usize, Stream>,
    q: QueueId,
    buf: Map<usize, Slot<Frame<Payload>>>,
)
    requires
        same_but_links(before, after, q),
        deques_wf(before, buf),
    ensures
        deques_wf(after, buf),
        records(after) == records(before),
        frames_of(after, buf) == frames_of(before, buf),
{
    assert forall|k: usize| #[trigger] after.contains_key(k) implies after[k].pending_send.wf(
        buf,
    ) by {
        assert(before.contains_key(k));
    }
    assert forall|j: usize, k: usize|
        #![trigger after.contains_key(j), after.contains_key(k)]
        after.contains_key(j) && after.contains_key(k) && j != k implies disjoint(
        after[j].pending_send.chain(),
        after[k].pending_send.chain(),
    ) by {
        assert(before.contains_key(j) && before.contains_key(k));
    }
    assert(records(after) =~= records(before)) by {
        assert forall|k: usize| after.contains_key(k) implies #[trigger] records(after)[k]
            == records(before)[k] by {
            assert(before.contains_key(k));
        }
    }
    assert(frames_of(after, buf) =~= frames_of(before, buf)) by {
        assert forall|k: usize| after.contains_key(k) implies #[trigger] frames_of(after, buf)[k]
            == frames_of(before, buf)[k] by {
            assert(before.contains_key(k));
        }
    }
}

/// A change to one stream that leaves its links and its frame queue alone
/// shows in that stream's record and nowhere else.
pub proof fn lemma_record_changed(
    before: Map<usize, Stream>,
    key: usize,
    stream: Stream,
    buf: Map<usize, Slot<Frame<Payload>>>,
)
    requires
        before.contains_key(key),
        deques_wf(before, buf),
        stream.pending_send == before[key].pending_send,
        forall|q: QueueId|
            stream.next_in(q) == before[key].next_in(q) && stream.queued_in(q)
                == before[key].queued_in(q),
    ensures
        deques_wf(before.insert(key, stream), buf),
        records(before.insert(key, stream)) == records(before).insert(key, stream.record()),
        frames_of(before.insert(key, stream), buf) == frames_of(before, buf),
{
    let after = before.insert(key, stream);
    assert forall|k: usize| #[trigger] after.contains_key(k) implies after[k].pending_send.wf(
        buf,
    ) by {
        assert(before.contains_key(k));
    }
    assert forall|j: usize, k: usize|
        #![trigger after.contains_key(j), after.contains_key(k)]
        after.contains_key(j) && after.contains_key(k) && j != k implies disjoint(
        after[j].pending_send.chain(),
        after[k].pending_send.chain(),
    ) by {
        assert(before.contains_key(j) && before.contains_key(k));
    }
    assert(records(after) =~= records(before).insert(key, stream.record()));
    assert(frames_of(after, buf) =~= frames_of(before, buf));
}

/// An operation on one stream's frame queue shows in that stream's pending
/// frames and nowhere else.
pub proof fn lemma_deque_changed(
    before: Map<usize, Stream>,
    key: usize,
    stream: Stream,
    buf: Map<usize, Slot<Frame<Payload>>>,
    buf2: Map<usize, Slot<Frame<Payload>>>,
)
    requires
        before.contains_key(key),
        deques_wf(before, buf),
        stream.record() == before[key].record(),
        stream.pending_send.wf(buf2),
        touches_only(buf, buf2, before[key].pending_send.chain(), stream.pending_send.chain()),
    ensures
        deques_wf(before.insert(key, stream), buf2),
        records(before.insert(key, stream)) == records(before),
        frames_of(before.insert(key, stream), buf2) == frames_of(before, buf).insert(
            key,
            stream.pending_send.items(buf2),
        ),
{
    let after = before.insert(key, stream);
    let c1 = before[key].pending_send.chain();
    let c2 = stream.pending_send.chain();
    assert forall|k: usize| after.contains_key(k) && k != key implies after[k].pending_send.wf(buf2)
        && after[k].pending_send.items(buf2) == before[k].pending_send.items(buf) && disjoint(
        after[k].pending_send.chain(),
        c2,
    ) by {
        assert(before.contains_key(k) && before.contains_key(key));
        before[k].pending_send.lemma_untouched(buf, buf2, c1, c2);
    }
    assert forall|k: usize| #[trigger] after.contains_key(k) implies after[k].pending_send.wf(
        buf2,
    ) by {}
    assert forall|j: usize, k: usize|
        #![trigger after.contains_key(j), after.contains_key(k)]
        after.contains_key(j) && after.contains_key(k) && j != k implies disjoint(
        after[j].pending_send.chain(),
        after[k].pending_send.chain(),
    ) by {
        if j != key && k != key {
            assert(before.contains_key(j) && before.contains_key(k));
        } else if j == key {
            assert(disjoint(after[k].pending_send.chain(), c2));
        }
    }
    assert(records(after) =~= records(before));
    assert(frames_of(after, buf2) =~= frames_of(before, buf).insert(
        key,
        stream.pending_send.items(buf2),
    ));
}

/// The prioritization layer of the sending side.
pub struct Prioritize {
    /// Streams with frames to write, in the order in which they are served.
    pending_send: Queue<NextSend>,
    /// Streams waiting for capacity of the connection window.
    pending_capacity: Queue<NextSendCapacity>,
    /// The send window of the connection.
    flow: FlowControl,
    /// The frames of all streams that wait to be written.
    buffer: Buffer<Frame<Payload>>,
}

impl Prioritize {
    pub closed spec fn spec_pending_send(&self) -> Queue<NextSend> {
        self.pending_send
    }

    pub closed spec fn spec_pending_capacity(&self) -> Queue<NextSendCapacity> {
        self.pending_capacity
    }

    pub closed spec fn spec_flow(&self) -> FlowControl {
        self.flow
    }

    pub closed spec fn spec_buffer(&self) -> Map<usize, Slot<Frame<Payload>>> {
        self.buffer@
    }

    pub closed spec fn spec_buffer_wf(&self) -> bool {
        self.buffer.wf()
    }

    /// The sending side as a value. Of the fields through which queues are
    /// linked it takes in those of the two queues above, by the order of
    /// their members; the links of the queues of the receiving side are no
    /// part of it, and every operation states of them with
    /// `receive_links_kept` that it leaves them alone.
    pub open spec fn model(&self, store: &Store) -> Model {
        Model {
            streams: records(store@),
            frames: frames_of(store@, self.spec_buffer()),
            pending_send: self.spec_pending_send()@,
            pending_capacity: self.spec_pending_capacity()@,
            flow: self.spec_flow(),
        }
    }

    /// The store, the arena and the two queues fit together.
    pub open spec fn repr(&self, store: &Store) -> bool {
        &&& store.wf()
        &&& self.spec_buffer_wf()
        &&& self.spec_pending_send().wf(store@)
        &&& self.spec_pending_capacity().wf(store@)
        &&& deques_wf(store@, self.spec_buffer())
    }

    /// What holds between any two operations: the representation fits
    /// together and the flow-control invariant holds.
    pub open spec fn wf(&self, store: &Store) -> bool {
        &&& self.repr(store)
        &&& self.model(store).inv()
    }

    /// In a well-formed state the queues hold streams of the store.
    pub proof fn lemma_queues_in_store(&self, store: &Store)
        requires
            self.repr(store),
        ensures
            forall|i: int|
                0 <= i < self.model(store).pending_send.len() ==> self.model(
                    store,
                ).streams.contains_key(#[trigger] self.model(store).pending_send[i].0),
            forall|i: int|
                0 <= i < self.model(store).pending_capacity.len() ==> self.model(
                    store,
                ).streams.contains_key(#[trigger] self.model(store).pending_capacity[i].0),
            self.model(store).streams.dom() == store@.dom(),
            self.model(store).frames.dom() == store@.dom(),
    {
        let m = self.model(store);
        assert(m.streams.dom() =~= store@.dom());
        assert(m.frames.dom() =~= store@.dom());
        assert forall|i: int| 0 <= i < m.pending_send.len() implies m.streams.contains_key(
            #[trigger] m.pending_send[i].0,
        ) by {
            assert(store@.contains_key(self.spec_pending_send()@[i].0));
        }
        assert forall|i: int| 0 <= i < m.pending_capacity.len() implies m.streams.contains_key(
            #[trigger] m.pending_capacity[i].0,
        ) by {
            assert(store@.contains_key(self.spec_pending_capacity()@[i].0));
        }
    }

    /// Over an empty store a new prioritization layer is well formed.
    pub proof fn lemma_new(&self, store: &Store)
        requires
            store.wf(),
            store@ == Map::<usize, Stream>::empty(),
            self.spec_pending_send()@.len() == 0,
            self.spec_pending_send().spec_indices() is None,
            self.spec_pending_capacity()@.len() == 0,
            self.spec_pending_capacity().spec_indices() is None,
            self.spec_flow().wf(),
            self.spec_flow().window_size >= 0,
            self.spec_buffer_wf(),
        ensures
            self.wf(store),
            self.model(store) == (Model {
                streams: Map::empty(),
                frames: Map::empty(),
                pending_send: Seq::empty(),
                pending_capacity: Seq::empty(),
                flow: self.spec_flow(),
            }),
    {
        let m = self.model(store);
        store.lemma_wf();
        assert(m.streams =~= Map::<usize, Record>::empty());
        assert(m.frames =~= Map::<usize, Seq<Frame<Payload>>>::empty());
        assert(m.streams.map_values(|r: Record| r.send_flow.available as int) =~= Map::<
            usize,
            int,
        >::empty());
        assert(m.total_available() == 0);
    }

    /// A new stream that has been granted nothing, is in no queue and has
    /// no frames pending can be added to the store.
    pub proof fn lemma_stream_inserted(&self, before: &Store, after: &Store, key: Key)
        requires
            self.wf(before),
            after.wf(),
            !before@.contains_key(key.0),
            after@ == before@.insert(key.0, after@[key.0]),
            after@[key.0].record().wf(),
            after@[key.0].send_flow.available == 0,
            forall|q: QueueId| !after@[key.0].queued_in(q) && after@[key.0].next_in(q) is None,
            after@[key.0].pending_send.chain().len() == 0,
            after@[key.0].pending_send.spec_indices() is None,
        ensures
            self.wf(after),
            self.model(after) == (Model {
                streams: self.model(before).streams.insert(key.0, after@[key.0].record()),
                frames: self.model(before).frames.insert(key.0, Seq::empty()),
                ..self.model(before)
            }),
    {
        let stream = after@[key.0];
        let buf = self.spec_buffer();
        let m0 = self.model(before);
        let m1 = self.model(after);
        assert(m1.streams =~= m0.streams.insert(key.0, stream.record()));
        assert(m1.frames =~= m0.frames.insert(key.0, Seq::empty())) by {
            assert(stream.pending_send.items(buf) =~= Seq::<Frame<Payload>>::empty());
        }
        assert(deques_wf(after@, buf)) by {
            assert forall|k: usize| #[trigger] after@.contains_key(k) implies
                after@[k].pending_send.wf(
                buf,
            ) by {
                if k != key.0 {
                    assert(before@.contains_key(k));
                }
            }
            assert forall|j: usize, k: usize|
                #![trigger after@.contains_key(j), after@.contains_key(k)]
                after@.contains_key(j) && after@.contains_key(k) && j != k implies disjoint(
                after@[j].pending_send.chain(),
                after@[k].pending_send.chain(),
            ) by {
                if j != key.0 && k != key.0 {
                    assert(before@.contains_key(j) && before@.contains_key(k));
                }
            }
        }
        self.spec_pending_send().lemma_wf_grown(before@, key.0, stream);
        self.spec_pending_capacity().lemma_wf_grown(before@, key.0, stream);
        let f = |r: Record| r.send_flow.available as int;
        assert(m1.streams.map_values(f) =~= m0.streams.map_values(f).insert(key.0, 0int));
        assert(m0.streams.map_values(f).dom() =~= m0.streams.dom());
        crate::proto::streams::model::lemma_sum_insert(m0.streams.map_values(f), key.0, 0int);
        assert forall|k: usize| #[trigger] m1.streams.contains_key(k) implies
            m1.streams[k].wf() by {
            if k != key.0 {
                assert(m0.streams.contains_key(k));
            }
        }
    }

    /// A stream that is in neither queue and has no frames pending can
    /// leave the store.
    pub proof fn lemma_stream_removed(&self, before: &Store, after: &Store, key: Key)
        requires
            self.wf(before),
            after.wf(),
            before@.contains_key(key.0),
            after@ == before@.remove(key.0),
            !before@[key.0].queued_in(QueueId::Send),
            !before@[key.0].queued_in(QueueId::SendCapacity),
        ensures
            self.wf(after),
            self.model(after) == (Model {
                streams: self.model(before).streams.remove(key.0),
                frames: self.model(before).frames.remove(key.0),
                ..self.model(before)
            }),
    {
        let buf = self.spec_buffer();
        let m0 = self.model(before);
        let m1 = self.model(after);
        assert(m1.streams =~= m0.streams.remove(key.0));
        assert(m1.frames =~= m0.frames.remove(key.0));
        assert(deques_wf(after@, buf)) by {
            assert forall|k: usize| #[trigger] after@.contains_key(k) implies
                after@[k].pending_send.wf(
                buf,
            ) by {
                assert(before@.contains_key(k));
            }
            assert forall|j: usize, k: usize|
                #![trigger after@.contains_key(j), after@.contains_key(k)]
                after@.contains_key(j) && after@.contains_key(k) && j != k implies disjoint(
                after@[j].pending_send.chain(),
                after@[k].pending_send.chain(),
            ) by {
                assert(before@.contains_key(j) && before@.contains_key(k));
            }
        }
        self.spec_pending_send().lemma_wf_shrunk(before@, key.0);
        self.spec_pending_capacity().lemma_wf_shrunk(before@, key.0);
        let f = |r: Record| r.send_flow.available as int;
        assert(m1.streams.map_values(f) =~= m0.streams.map_values(f).remove(key.0));
        assert(m0.streams.map_values(f).dom() =~= m0.streams.dom());
        crate::proto::streams::model::lemma_sum_remove(m0.streams.map_values(f), key.0);
        assert(m0.streams.contains_key(key.0));
        assert forall|k: usize| #[trigger] m1.streams.contains_key(k) implies
            m1.streams[k].wf() by {
            assert(m0.streams.contains_key(k));
        }
    }

    /// The sending side of a new connection: no stream is scheduled or
    /// waiting, and the whole initial window is there to be granted.
    pub fn new(config: &Config) -> (prioritize: Prioritize)
        requires
            0 <= config.init_local_window_sz,
        ensures
            prioritize.spec_pending_send()@.len() == 0,
            prioritize.spec_pending_send().spec_indices() is None,
            prioritize.spec_pending_capacity()@.len() == 0,
            prioritize.spec_pending_capacity().spec_indices() is None,
            prioritize.spec_flow() == (FlowControl {
                window_size: config.init_local_window_sz,
                available: config.init_local_window_sz,
            }),
            prioritize.spec_buffer_wf(),
            prioritize.spec_buffer() == Map::<usize, Slot<Frame<Payload>>>::empty(),
    {
        let mut flow = FlowControl::new();
        let grown = flow.inc_window(config.init_local_window_sz);
        flow.assign_capacity(config.init_local_window_sz);
        Prioritize {
            pending_send: Queue::new(),
            pending_capacity: Queue::new(),
            flow,
            buffer: Buffer::new(),
        }
    }

    /// What the connection has left to grant.
    pub fn available(&self) -> (sz: WindowSize)
        ensures
            sz == self.spec_flow().available,
    {
        self.flow.available()
    }

    /// The send window of the connection.
    pub fn window_size(&self) -> (sz: WindowSize)
        ensures
            sz == self.spec_flow().window_size,
    {
        self.flow.window_size()
    }

    /// Schedules the stream in the queue of streams with frames to write.
    fn schedule(&mut self, store: &mut Store, key: Key)
        requires
            old(self).repr(old(store)),
            old(store)@.contains_key(key.0),
        ensures
            final(self).repr(final(store)),
            final(store).ids() == old(store).ids(),
            receive_links_kept(old(store)@, final(store)@),
            final(store)@.dom() == old(store)@.dom(),
            final(self).model(final(store)) == (Model {
                pending_send: enqueue(old(self).model(old(store)).pending_send, key),
                ..old(self).model(old(store))
            }),
    {
        let pushed = self.pending_send.push(store, key);
        proof {
            lemma_links_changed(old(store)@, store@, QueueId::Send, self.spec_buffer());
            self.pending_capacity.lemma_wf_kept(old(store)@, store@);
        }
    }

    /// Puts the stream into the queue for connection capacity.
    fn wait_for_capacity(&mut self, store: &mut Store, key: Key)
        requires
            old(self).repr(old(store)),
            old(store)@.contains_key(key.0),
        ensures
            final(self).repr(final(store)),
            final(store).ids() == old(store).ids(),
            receive_links_kept(old(store)@, final(store)@),
            final(store)@.dom() == old(store)@.dom(),
            final(self).model(final(store)) == (Model {
                pending_capacity: enqueue(old(self).model(old(store)).pending_capacity, key),
                ..old(self).model(old(store))
            }),
    {
        let pushed = self.pending_capacity.push(store, key);
        proof {
            lemma_links_changed(old(store)@, store@, QueueId::SendCapacity, self.spec_buffer());
            self.pending_send.lemma_wf_kept(old(store)@, store@);
        }
    }

    /// Grants the stream what it asks for, as far as the connection can
    /// give it and the stream's window has room for it. The stream queues
    /// up for more while it has less than it asked for and room in its
    /// window, and it is scheduled for writing if data is buffered.
    pub fn try_assign_capacity(&mut self, store: &mut Store, key: Key)
        requires
            old(self).wf(old(store)),
            old(store)@.contains_key(key.0),
        ensures
            final(self).wf(final(store)),
            final(store).ids() == old(store).ids(),
            receive_links_kept(old(store)@, final(store)@),
            final(self).model(final(store)) == old(self).model(old(store)).try_assign(key.0),
            old(store)@[key.0].record().additional() <= 0 ==> final(store)@ == old(store)@
                && *final(self) == *old(self),
    {
        let ghost m0 = self.model(store);
        let ghost s0 = store@[key.0];
        proof {
            self.lemma_queues_in_store(store);
            m0.lemma_try_assign(key.0);
            assert(m0.streams[key.0] == s0.record());
            assert(s0.record().wf());
        }
        let stream = store.resolve(key);
        let total_requested = stream.requested_send_capacity;
        let available = stream.send_flow.available();
        let window: WindowSize = if stream.send_flow.window_size() < 0 {
            0
        } else {
            stream.send_flow.window_size()
        };
        let wanted = total_requested - available;
        let additional = if wanted <= window {
            wanted
        } else {
            window
        };
        if additional <= 0 {
            assert(store@ =~= old(store)@);
            return ;
        }
        let conn_available = self.flow.available();
        if conn_available > 0 {
            let offered = if conn_available <= additional {
                conn_available
            } else {
                additional
            };
            let room = window - available;
            let assign = if offered <= room {
                offered
            } else {
                room
            };
            if assign > 0 {
                stream.assign_capacity(assign);
                self.flow.claim_capacity(assign);
            }
        }
        let wants_more = stream.send_flow.available() < stream.requested_send_capacity
            && stream.send_flow.has_unavailable();
        let buffered = stream.buffered_send_data > 0;
        proof {
            lemma_record_changed(old(store)@, key.0, store@[key.0], self.spec_buffer());
            self.pending_send.lemma_wf_kept(old(store)@, store@);
            self.pending_capacity.lemma_wf_kept(old(store)@, store@);
        }
        if wants_more {
            self.wait_for_capacity(store, key);
        }
        if buffered {
            self.schedule(store, key);
        }
    }

    /// Appends a frame to the stream's pending frames, schedules the
    /// stream, and wakes the connection task if one is given.
    pub fn queue_frame(
        &mut self,
        frame: Frame<Payload>,
        store: &mut Store,
        key: Key,
        task: &mut Option<Task>,
    )
        requires
            old(self).wf(old(store)),
            old(store)@.contains_key(key.0),
        ensures
            final(self).wf(final(store)),
            final(store).ids() == old(store).ids(),
            receive_links_kept(old(store)@, final(store)@),
            final(self).model(final(store)) == old(self).model(old(store)).queue_frame(
                key.0,
                frame,
            ),
            *final(task) is None,
    {
        proof {
            self.lemma_queues_in_store(store);
        }
        self.push_frame(frame, store, key);
        self.schedule(store, key);
        if let Some(task) = task.take() {
            wake(task);
        }
        proof {
            let m0 = old(self).model(old(store));
            let m1 = self.model(store);
            assert(m1 == m0.queue_frame(key.0, frame));
            assert(m1.frames.dom() =~= m0.frames.dom());
            assert(m1.total_available() == m0.total_available());
        }
    }

    /// Appends a frame to the stream's pending frames without scheduling
    /// the stream.
    fn push_frame(&mut self, frame: Frame<Payload>, store: &mut Store, key: Key)
        requires
            old(self).repr(old(store)),
            old(store)@.contains_key(key.0),
        ensures
            final(self).repr(final(store)),
            final(store).ids() == old(store).ids(),
            receive_links_kept(old(store)@, final(store)@),
            final(store)@.dom() == old(store)@.dom(),
            final(self).model(final(store)) == old(self).model(old(store)).with_frames(
                key.0,
                old(self).model(old(store)).frames[key.0].push(frame),
            ),
    {
        let ghost buf0 = self.spec_buffer();
        let stream = store.resolve(key);
        stream.pending_send.push_back(&mut self.buffer, frame);
        proof {
            assert(store@.dom() =~= old(store)@.dom());
            lemma_deque_changed(old(store)@, key.0, store@[key.0], buf0, self.spec_buffer());
            self.pending_send.lemma_wf_kept(old(store)@, store@);
            self.pending_capacity.lemma_wf_kept(old(store)@, store@);
        }
    }

    /// A change to one stream that leaves its links and its frame queue
    /// alone keeps the representation together and shows in that stream's
    /// record only.
    pub proof fn lemma_stream_updated(&self, before: &Store, after: &Store, key: Key)
        requires
            self.repr(before),
            before@.contains_key(key.0),
            after.wf(),
            after@ == before@.insert(key.0, after@[key.0]),
            after@[key.0].pending_send == before@[key.0].pending_send,
            forall|q: QueueId|
                after@[key.0].next_in(q) == before@[key.0].next_in(q) && after@[key.0].queued_in(q)
                    == before@[key.0].queued_in(q),
        ensures
            self.repr(after),
            self.model(after) == self.model(before).with_stream(key.0, after@[key.0].record()),
            receive_links_kept(before@, after@),
    {
        lemma_record_changed(before@, key.0, after@[key.0], self.spec_buffer());
        assert(after@.dom() =~= before@.dom());
        self.spec_pending_send().lemma_wf_kept(before@, after@);
        self.spec_pending_capacity().lemma_wf_kept(before@, after@);
    }

    /// Takes a DATA frame for sending. It is refused, and nothing changes,
    /// if the payload is larger than any window can be, if the stream is
    /// not in a state to send data, or if the stream would have more
    /// buffered than any window can be. Otherwise the payload counts as
    /// buffered, capacity is asked for on its behalf if needed, the state
    /// follows an END_STREAM flag, and the frame is queued; the stream is
    /// scheduled, and the connection task woken, only if the stream has
    /// been granted as much as it has buffered.
    pub fn send_data(
        &mut self,
        frame: Data<Payload>,
        store: &mut Store,
        key: Key,
        task: &mut Option<Task>,
    ) -> (res: Result<(), ConnectionError>)
        requires
            old(self).wf(old(store)),
            old(store)@.contains_key(key.0),
        ensures
            final(self).wf(final(store)),
            final(store).ids() == old(store).ids(),
            receive_links_kept(old(store)@, final(store)@),
            match old(self).model(old(store)).send_data_error(key.0, frame.data@.len() as int) {
                Some(e) => res == Err::<(), ConnectionError>(e) && final(store)@ == old(store)@
                    && *final(self) == *old(self) && *final(task) == *old(task),
                None => res is Ok && final(self).model(final(store)) == old(self).model(
                    old(store),
                ).send_data(key.0, frame) && *final(task) == (if old(self).model(
                    old(store),
                ).send_data_wakes(key.0, frame) {
                    None::<Task>
                } else {
                    *old(task)
                }),
            },
    {
        let ghost m0 = self.model(store);
        proof {
            self.lemma_queues_in_store(store);
            assert(m0.streams[key.0] == store@[key.0].record());
        }
        let sz = frame.payload().remaining();
        if sz > MAX_WINDOW_SIZE as usize {
            return Err(ConnectionError::User(User::PayloadTooBig));
        }
        let sz = sz as WindowSize;
        let current = store.get(key);
        if !current.state.is_send_streaming() {
            if current.state.is_closed() {
                return Err(ConnectionError::User(User::InactiveStreamId));
            } else {
                return Err(ConnectionError::User(User::UnexpectedFrameType));
            }
        }
        if current.buffered_send_data > MAX_WINDOW_SIZE - sz {
            return Err(ConnectionError::User(User::PayloadTooBig));
        }
        self.buffer_data(sz, store, key);
        let ghost m1 = self.model(store);
        if frame.is_end_stream() {
            self.close_send(store, key);
        }
        let ghost m2 = self.model(store);
        proof {
            self.lemma_queues_in_store(store);
            assert(m2.streams[key.0].send_flow == m1.streams[key.0].send_flow);
            assert(m2.streams[key.0].buffered_send_data == m1.streams[key.0].buffered_send_data);
        }
        let current = store.get(key);
        if current.send_flow.available() >= current.buffered_send_data {
            self.queue_frame(Frame::Data(frame), store, key, task);
        } else {
            self.push_frame(Frame::Data(frame), store, key);
            proof {
                let m3 = self.model(store);
                assert(m3.frames.dom() =~= m2.frames.dom());
                assert(m3.total_available() == m2.total_available());
            }
        }
        Ok(())
    }

    /// Counts `sz` more bytes as buffered on the stream, and asks for
    /// capacity on their behalf if the stream has asked for less.
    fn buffer_data(&mut self, sz: WindowSize, store: &mut Store, key: Key)
        requires
            old(self).wf(old(store)),
            old(store)@.contains_key(key.0),
            0 <= sz,
            old(store)@[key.0].buffered_send_data + sz <= MAX_WINDOW_SIZE,
        ensures
            final(self).wf(final(store)),
            final(store).ids() == old(store).ids(),
            receive_links_kept(old(store)@, final(store)@),
            final(store)@.dom() == old(store)@.dom(),
            final(self).model(final(store)) == old(self).model(old(store)).buffer_data(
                key.0,
                sz as int,
            ),
    {
        let ghost m0 = self.model(store);
        proof {
            self.lemma_queues_in_store(store);
            assert(m0.streams[key.0] == store@[key.0].record());
        }
        let stream = store.resolve(key);
        stream.buffered_send_data = stream.buffered_send_data + sz;
        let raise = stream.requested_send_capacity < stream.buffered_send_data;
        if raise {
            stream.requested_send_capacity = stream.buffered_send_data;
        }
        proof {
            self.lemma_stream_updated(old(store), store, key);
            m0.lemma_total_with_stream(key.0, store@[key.0].record());
            assert(store@.dom() =~= old(store)@.dom());
        }
        if raise {
            let ghost m1 = self.model(store);
            proof {
                self.lemma_queues_in_store(store);
                m1.lemma_try_assign(key.0);
            }
            self.try_assign_capacity(store, key);
            proof {
                self.lemma_queues_in_store(store);
            }
        }
    }

    /// Closes the sending half of a stream that is still sending.
    fn close_send(&mut self, store: &mut Store, key: Key)
        requires
            old(self).wf(old(store)),
            old(store)@.contains_key(key.0),
            old(store)@[key.0].state.spec_is_send_streaming(),
        ensures
            final(self).wf(final(store)),
            final(store).ids() == old(store).ids(),
            receive_links_kept(old(store)@, final(store)@),
            final(store)@.dom() == old(store)@.dom(),
            final(self).model(final(store)) == old(self).model(old(store)).close_send(key.0),
    {
        let ghost m0 = self.model(store);
        proof {
            self.lemma_queues_in_store(store);
            assert(m0.streams[key.0] == store@[key.0].record());
        }
        let stream = store.resolve(key);
        let closed = stream.state.send_close();
        proof {
            self.lemma_stream_updated(old(store), store, key);
            m0.lemma_total_with_stream(key.0, store@[key.0].record());
            assert(store@.dom() =~= old(store)@.dom());
        }
    }

    /// Raises what the stream asks for to `capacity` beyond what it has
    /// buffered, and grants what can be granted of it. A request that is
    /// not higher than the standing one changes nothing.
    pub fn reserve_capacity(&mut self, capacity: WindowSize, store: &mut Store, key: Key)
        requires
            old(self).wf(old(store)),
            old(store)@.contains_key(key.0),
            0 <= capacity,
            capacity + old(store)@[key.0].buffered_send_data <= MAX_WINDOW_SIZE,
        ensures
            final(self).wf(final(store)),
            final(store).ids() == old(store).ids(),
            receive_links_kept(old(store)@, final(store)@),
            final(self).model(final(store)) == old(self).model(old(store)).reserve_capacity(
                key.0,
                capacity as int,
            ),
            capacity + old(store)@[key.0].buffered_send_data
                <= old(store)@[key.0].requested_send_capacity ==> final(store)@ == old(store)@
                && *final(self) == *old(self),
    {
        let ghost m0 = self.model(store);
        proof {
            self.lemma_queues_in_store(store);
            assert(m0.streams[key.0] == store@[key.0].record());
        }
        let current = store.get(key);
        let wanted = capacity + current.buffered_send_data;
        if wanted <= current.requested_send_capacity {
            return ;
        }
        let stream = store.resolve(key);
        stream.requested_send_capacity = wanted;
        proof {
            self.lemma_stream_updated(old(store), store, key);
            m0.lemma_total_with_stream(key.0, store@[key.0].record());
        }
        self.try_assign_capacity(store, key);
    }

    /// Applies a window update of the peer to the stream, and grants what
    /// can be granted of what the stream asks for. Fails with a
    /// flow-control error, changing nothing, exactly where the stream's
    /// window would pass the largest window there is.
    pub fn recv_stream_window_update(&mut self, inc: WindowSize, store: &mut Store, key: Key) -> (res:
        Result<(), ConnectionError>)
        requires
            old(self).wf(old(store)),
            old(store)@.contains_key(key.0),
            0 <= inc,
        ensures
            final(self).wf(final(store)),
            final(store).ids() == old(store).ids(),
            receive_links_kept(old(store)@, final(store)@),
            match old(self).model(old(store)).recv_stream_window_update(key.0, inc as int) {
                Some(m) => res is Ok && final(self).model(final(store)) == m,
                None => res == Err::<(), ConnectionError>(
                    ConnectionError::Proto(Reason::FlowControlError),
                ) && final(store)@ == old(store)@ && *final(self) == *old(self),
            },
    {
        let ghost m0 = self.model(store);
        proof {
            self.lemma_queues_in_store(store);
            assert(m0.streams[key.0] == store@[key.0].record());
        }
        let stream = store.resolve(key);
        let grown = stream.send_flow.inc_window(inc);
        match grown {
            Err(e) => {
                assert(store@ =~= old(store)@);
                return Err(e);
            },
            Ok(_) => {},
        }
        proof {
            self.lemma_stream_updated(old(store), store, key);
            m0.lemma_total_with_stream(key.0, store@[key.0].record());
        }
        self.try_assign_capacity(store, key);
        Ok(())
    }

    /// Takes the first stream off the queue for connection capacity.
    fn next_waiting(&mut self, store: &mut Store) -> (res: Option<Key>)
        requires
            old(self).wf(old(store)),
        ensures
            final(self).wf(final(store)),
            final(store).ids() == old(store).ids(),
            receive_links_kept(old(store)@, final(store)@),
            match res {
                Some(key) => {
                    &&& old(self).model(old(store)).pending_capacity.len() > 0
                    &&& key == old(self).model(old(store)).pending_capacity[0]
                    &&& final(store)@.contains_key(key.0)
                    &&& final(self).model(final(store)) == (Model {
                        pending_capacity: old(self).model(
                            old(store),
                        ).pending_capacity.drop_first(),
                        ..old(self).model(old(store))
                    })
                },
                None => old(self).model(old(store)).pending_capacity.len() == 0 && final(store)@
                    == old(store)@ && *final(self) == *old(self),
            },
    {
        let res = self.pending_capacity.pop(store);
        proof {
            lemma_links_changed(old(store)@, store@, QueueId::SendCapacity, self.spec_buffer());
            self.pending_send.lemma_wf_kept(old(store)@, store@);
        }
        res
    }

    /// Takes the first stream off the queue of streams with frames to
    /// write.
    fn next_scheduled(&mut self, store: &mut Store) -> (res: Option<Key>)
        requires
            old(self).wf(old(store)),
        ensures
            final(self).wf(final(store)),
            final(store).ids() == old(store).ids(),
            receive_links_kept(old(store)@, final(store)@),
            match res {
                Some(key) => {
                    &&& old(self).model(old(store)).pending_send.len() > 0
                    &&& key == old(self).model(old(store)).pending_send[0]
                    &&& final(store)@.contains_key(key.0)
                    &&& final(self).model(final(store)) == (Model {
                        pending_send: old(self).model(old(store)).pending_send.drop_first(),
                        ..old(self).model(old(store))
                    })
                },
                None => old(self).model(old(store)).pending_send.len() == 0 && final(store)@
                    == old(store)@ && *final(self) == *old(self),
            },
    {
        let res = self.pending_send.pop(store);
        proof {
            lemma_links_changed(old(store)@, store@, QueueId::Send, self.spec_buffer());
            self.pending_capacity.lemma_wf_kept(old(store)@, store@);
        }
        res
    }

    /// Gives the connection `inc` more to grant, and hands it on to the
    /// streams that wait for capacity, first come first served, until
    /// nothing is left or nobody waits.
    pub fn assign_connection_capacity(&mut self, inc: WindowSize, store: &mut Store)
        requires
            old(self).wf(old(store)),
            0 <= inc,
            old(self).model(old(store)).total_available() + old(self).spec_flow().available + inc
                <= old(self).spec_flow().window_size,
        ensures
            final(self).wf(final(store)),
            final(store).ids() == old(store).ids(),
            receive_links_kept(old(store)@, final(store)@),
            final(self).model(final(store)) == old(self).model(
                old(store),
            ).assign_connection_capacity(inc as int),
    {
        let ghost goal = self.model(store).assign_connection_capacity(inc as int);
        let ghost mut rounds: nat = self.model(store).pending_capacity.len();
        proof {
            self.model(store).lemma_total_nonneg();
        }
        self.flow.assign_capacity(inc);
        proof {
            assert(self.model(store).total_available() == old(self).model(
                old(store),
            ).total_available());
        }
        while self.flow.available() > 0
            invariant
                self.wf(store),
                store.ids() == old(store).ids(),
                receive_links_kept(old(store)@, store@),
                self.model(store).distribute(rounds) == goal,
                goal == old(self).model(old(store)).assign_connection_capacity(inc as int),
                self.spec_flow().available > 0 ==> rounds >= self.model(
                    store,
                ).pending_capacity.len(),
            decreases
                    (if self.spec_flow().available > 0 {
                        self.model(store).pending_capacity.len()
                    } else {
                        0
                    }),
        {
            match self.next_waiting(store) {
                Some(key) => {
                    proof {
                        self.lemma_queues_in_store(store);
                        self.model(store).lemma_try_assign(key.0);
                        rounds = (rounds - 1) as nat;
                    }
                    self.try_assign_capacity(store, key);
                },
                None => {
                    return ;
                },
            }
        }
    }

    /// Applies a window update of the peer to the connection, and hands the
    /// new capacity on to the streams that wait for it. Fails with a
    /// flow-control error, changing nothing, exactly where the connection
    /// window would pass the largest window there is.
    pub fn recv_connection_window_update(&mut self, inc: WindowSize, store: &mut Store) -> (res:
        Result<(), ConnectionError>)
        requires
            old(self).wf(old(store)),
            0 <= inc,
        ensures
            final(self).wf(final(store)),
            final(store).ids() == old(store).ids(),
            receive_links_kept(old(store)@, final(store)@),
            match old(self).model(old(store)).recv_connection_window_update(inc as int) {
                Some(m) => res is Ok && final(self).model(final(store)) == m,
                None => res == Err::<(), ConnectionError>(
                    ConnectionError::Proto(Reason::FlowControlError),
                ) && final(store)@ == old(store)@ && *final(self) == *old(self),
            },
    {
        let grown = self.flow.inc_window(inc);
        match grown {
            Err(e) => {
                return Err(e);
            },
            Ok(_) => {},
        }
        proof {
            assert(self.model(store).total_available() == old(self).model(
                old(store),
            ).total_available());
        }
        self.assign_connection_capacity(inc, store);
        Ok(())
    }

    /// Takes the first of the stream's pending frames, if it has one.
    fn pop_pending(&mut self, store: &mut Store, key: Key) -> (res: Option<Frame<Payload>>)
        requires
            old(self).wf(old(store)),
            old(store)@.contains_key(key.0),
        ensures
            final(self).wf(final(store)),
            final(store).ids() == old(store).ids(),
            receive_links_kept(old(store)@, final(store)@),
            final(store)@.dom() == old(store)@.dom(),
            match res {
                Some(frame) => {
                    &&& old(self).model(old(store)).frames[key.0].len() > 0
                    &&& frame == old(self).model(old(store)).frames[key.0][0]
                    &&& final(self).model(final(store)) == old(self).model(
                        old(store),
                    ).with_frames(
                        key.0,
                        old(self).model(old(store)).frames[key.0].drop_first(),
                    )
                },
                None => old(self).model(old(store)).frames[key.0].len() == 0 && final(store)@
                    == old(store)@ && *final(self) == *old(self),
            },
    {
        let ghost buf0 = self.spec_buffer();
        let ghost m0 = self.model(store);
        let stream = store.resolve(key);
        let res = stream.pending_send.pop_front(&mut self.buffer);
        proof {
            assert(store@.dom() =~= old(store)@.dom());
            lemma_deque_changed(old(store)@, key.0, store@[key.0], buf0, self.spec_buffer());
            self.pending_send.lemma_wf_kept(old(store)@, store@);
            self.pending_capacity.lemma_wf_kept(old(store)@, store@);
            let m1 = self.model(store);
            assert(m1.frames.dom() =~= m0.frames.dom());
            if res is None {
                assert(m1.frames =~= m0.frames);
            }
            assert(m1.total_available() == m0.total_available());
        }
        res
    }

    /// Puts a frame in front of the stream's pending frames.
    fn unpop_pending(&mut self, frame: Frame<Payload>, store: &mut Store, key: Key)
        requires
            old(self).wf(old(store)),
            old(store)@.contains_key(key.0),
        ensures
            final(self).wf(final(store)),
            final(store).ids() == old(store).ids(),
            receive_links_kept(old(store)@, final(store)@),
            final(store)@.dom() == old(store)@.dom(),
            final(self).model(final(store)) == old(self).model(old(store)).with_frames(
                key.0,
                seq![frame] + old(self).model(old(store)).frames[key.0],
            ),
    {
        let ghost buf0 = self.spec_buffer();
        let ghost m0 = self.model(store);
        let stream = store.resolve(key);
        stream.pending_send.push_front(&mut self.buffer, frame);
        proof {
            assert(store@.dom() =~= old(store)@.dom());
            lemma_deque_changed(old(store)@, key.0, store@[key.0], buf0, self.spec_buffer());
            self.pending_send.lemma_wf_kept(old(store)@, store@);
            self.pending_capacity.lemma_wf_kept(old(store)@, store@);
            let m1 = self.model(store);
            assert(m1.frames.dom() =~= m0.frames.dom());
            assert(m1.total_available() == m0.total_available());
        }
    }

    /// Drops every frame that the stream has pending.
    pub fn clear_queue(&mut self, store: &mut Store, key: Key)
        requires
            old(self).wf(old(store)),
            old(store)@.contains_key(key.0),
        ensures
            final(self).wf(final(store)),
            final(store).ids() == old(store).ids(),
            receive_links_kept(old(store)@, final(store)@),
            final(self).model(final(store)) == old(self).model(old(store)).clear_queue(key.0),
            old(self).model(old(store)).frames[key.0].len() == 0 ==> final(store)@ == old(store)@
                && *final(self) == *old(self),
    {
        let ghost m0 = self.model(store);
        let ghost mut dropped = false;
        proof {
            assert(m0.with_frames(key.0, m0.frames[key.0]) =~= m0) by {
                self.lemma_queues_in_store(store);
                assert(m0.frames.insert(key.0, m0.frames[key.0]) =~= m0.frames);
            }
        }
        loop
            invariant
                self.wf(store),
                store.ids() == old(store).ids(),
                receive_links_kept(old(store)@, store@),
                store@.contains_key(key.0),
                self.model(store) == m0.with_frames(key.0, self.model(store).frames[key.0]),
                m0 == old(self).model(old(store)),
                dropped ==> m0.frames[key.0].len() > 0,
                !dropped ==> store@ == old(store)@ && *self == *old(self),
            ensures
                self.wf(store),
                store.ids() == old(store).ids(),
                receive_links_kept(old(store)@, store@),
                self.model(store) == m0.clear_queue(key.0),
                m0 == old(self).model(old(store)),
                m0.frames[key.0].len() == 0 ==> store@ == old(store)@ && *self == *old(self),
            decreases self.model(store).frames[key.0].len(),
        {
            let ghost m1 = self.model(store);
            match self.pop_pending(store, key) {
                Some(_) => {
                    proof {
                        let m2 = self.model(store);
                        assert(m2.frames =~= m0.frames.insert(key.0, m2.frames[key.0]));
                        dropped = true;
                    }
                },
                None => {
                    proof {
                        assert(m1.frames[key.0] =~= Seq::<Frame<Payload>>::empty());
                    }
                    break ;
                },
            }
        }
    }

    /// Puts a frame in front of the stream's pending frames, and schedules
    /// the stream if it has capacity.
    fn push_back_frame(&mut self, frame: Frame<Payload>, store: &mut Store, key: Key)
        requires
            old(self).wf(old(store)),
            old(store)@.contains_key(key.0),
        ensures
            final(self).wf(final(store)),
            final(store).ids() == old(store).ids(),
            receive_links_kept(old(store)@, final(store)@),
            final(self).model(final(store)) == old(self).model(old(store)).push_back_frame(
                key.0,
                frame,
            ),
    {
        let ghost m0 = self.model(store);
        proof {
            self.lemma_queues_in_store(store);
            assert(m0.streams[key.0] == store@[key.0].record());
        }
        self.unpop_pending(frame, store, key);
        proof {
            self.lemma_queues_in_store(store);
            assert(self.model(store).streams[key.0] == store@[key.0].record());
        }
        if store.get(key).send_flow.available() > 0 {
            let ghost m1 = self.model(store);
            self.schedule(store, key);
            proof {
                let m2 = self.model(store);
                assert(m2.total_available() == m1.total_available());
            }
        }
    }

    /// Takes back the DATA frame that the codec wrote last, if it holds
    /// one. Where bytes are left of it, they are put in front of their
    /// stream's pending frames, marked as the end of the stream if the
    /// frame was cut from one that ended it, and the stream is scheduled
    /// if it has capacity. Returns whether anything was put back.
    pub fn reclaim_frame(&mut self, store: &mut Store, frame: Option<Data<Prioritized>>) -> (res:
        bool)
        requires
            old(self).wf(old(store)),
            Model::reclaims(frame) ==> old(store)@.contains_key(frame.unwrap().data.stream.0),
        ensures
            final(self).wf(final(store)),
            final(store).ids() == old(store).ids(),
            receive_links_kept(old(store)@, final(store)@),
            res == Model::reclaims(frame),
            final(self).model(final(store)) == old(self).model(old(store)).reclaim_frame(frame),
            !res ==> final(store)@ == old(store)@ && *final(self) == *old(self),
    {
        match frame {
            Some(frame) => {
                let Data { stream_id, data, end_stream, pad_len } = frame;
                let Prioritized { inner, limit, end_of_stream, stream } = data;
                if inner.has_remaining() {
                    let rest = Data {
                        stream_id,
                        data: inner,
                        end_stream: end_stream || end_of_stream,
                        pad_len,
                    };
                    self.push_back_frame(Frame::Data(rest), store, stream);
                    true
                } else {
                    false
                }
            },
            None => false,
        }
    }

    /// Accounts for `len` bytes of the stream that go on the wire: they
    /// leave what the stream was granted and both windows.
    fn spend(&mut self, store: &mut Store, key: Key, len: WindowSize)
        requires
            old(self).wf(old(store)),
            old(store)@.contains_key(key.0),
            0 <= len <= old(store)@[key.0].send_flow.available,
        ensures
            final(self).wf(final(store)),
            final(store).ids() == old(store).ids(),
            receive_links_kept(old(store)@, final(store)@),
            final(store)@.dom() == old(store)@.dom(),
            final(self).model(final(store)) == (Model {
                flow: FlowControl {
                    window_size: (old(self).spec_flow().window_size - len) as WindowSize,
                    ..old(self).spec_flow()
                },
                ..old(self).model(old(store))
            }).with_stream(key.0, old(store)@[key.0].record().sent(len as int)),
    {
        let ghost m0 = self.model(store);
        proof {
            self.lemma_queues_in_store(store);
            assert(m0.streams[key.0] == store@[key.0].record());
            m0.lemma_total_bounds(key.0);
        }
        let stream = store.resolve(key);
        stream.send_flow.send_data(len);
        self.flow.assign_capacity(len);
        self.flow.send_data(len);
        proof {
            self.lemma_stream_updated(old(store), store, key);
            assert(store@.dom() =~= old(store)@.dom());
            m0.lemma_total_with_stream(key.0, store@[key.0].record());
            let m1 = self.model(store);
            assert(m1.streams == m0.with_stream(key.0, store@[key.0].record()).streams);
            assert(store@[key.0].record() == old(store)@[key.0].record().sent(len as int));
            assert forall|k: usize| #[trigger] m1.streams.contains_key(k) implies
                m1.streams[k].wf() by {
                if k != key.0 {
                    assert(m0.streams.contains_key(k));
                }
            }
        }
    }

    /// Takes the frame that the stream gives when its turn comes, if it
    /// gives one, and schedules the stream again if it has more pending.
    fn take_from(&mut self, store: &mut Store, key: Key, max_len: usize) -> (res: Option<
        Frame<Prioritized>,
    >)
        requires
            old(self).wf(old(store)),
            old(store)@.contains_key(key.0),
        ensures
            final(self).wf(final(store)),
            final(store).ids() == old(store).ids(),
            receive_links_kept(old(store)@, final(store)@),
            match old(self).model(old(store)).take_from(key, max_len as int) {
                Some(popped) => res == popped.frame && res is Some && final(self).model(
                    final(store),
                ) == popped.model,
                None => res is None && final(self).model(final(store)) == old(self).model(
                    old(store),
                ),
            },
    {
        let ghost m1 = self.model(store);
        proof {
            self.lemma_queues_in_store(store);
            assert(m1.streams[key.0] == store@[key.0].record());
        }
        let frame = match self.pop_pending(store, key) {
            Some(frame) => frame,
            None => {
                return None;
            },
        };
        let ghost m2 = self.model(store);
        let ghost rest = m2.frames[key.0];
        proof {
            self.lemma_queues_in_store(store);
            assert(m2.streams[key.0] == store@[key.0].record());
        }
        let out = match frame {
            Frame::Data(frame) => {
                let cap = store.get(key).send_flow.available();
                let sz = frame.payload().remaining();
                if sz > 0 && cap == 0 {
                    self.unpop_pending(Frame::Data(frame), store, key);
                    proof {
                        let m3 = self.model(store);
                        assert(seq![Frame::Data(frame)] + rest =~= m1.frames[key.0]);
                        assert(m3.frames =~= m1.frames);
                    }
                    return None;
                }
                let len = if sz <= max_len {
                    sz
                } else {
                    max_len
                };
                let len = if len <= cap as usize {
                    len
                } else {
                    cap as usize
                };
                self.spend(store, key, len as WindowSize);
                let Data { stream_id, data, end_stream, pad_len } = frame;
                Frame::Data(
                    Data {
                        stream_id,
                        data: Prioritized {
                            inner: data,
                            limit: len,
                            end_of_stream: end_stream,
                            stream: key,
                        },
                        end_stream: end_stream && sz <= len,
                        pad_len,
                    },
                )
            },
            other => other.without_payload(),
        };
        let ghost m3 = self.model(store);
        proof {
            self.lemma_queues_in_store(store);
        }
        if !store.get(key).pending_send.is_empty() {
            self.schedule(store, key);
            proof {
                assert(self.model(store).total_available() == m3.total_available());
            }
        }
        proof {
            let m4 = self.model(store);
            let goal = m1.take_from(key, max_len as int).unwrap();
            assert(m4.streams =~= goal.model.streams);
            assert(m4.frames =~= goal.model.frames);
            assert(m4 == goal.model);
        }
        Some(out)
    }

    /// Takes the next frame to write: the first pending frame of the first
    /// scheduled stream that has one to give. A stream with nothing
    /// pending, or with a DATA frame at its front that holds bytes while
    /// the stream has no capacity, gives none and leaves the schedule. A
    /// DATA frame is limited to `max_len` bytes and to what the stream has
    /// been granted; a DATA frame without bytes is always given. The stream
    /// is scheduled again if it has more frames pending. Returns nothing
    /// if no scheduled stream has a frame to give.
    pub fn pop_frame(&mut self, store: &mut Store, max_len: usize) -> (res: Option<
        Frame<Prioritized>,
    >)
        requires
            old(self).wf(old(store)),
        ensures
            final(self).wf(final(store)),
            final(store).ids() == old(store).ids(),
            receive_links_kept(old(store)@, final(store)@),
            final(self).model(final(store)) == old(self).model(old(store)).pop_frame(
                max_len as int,
            ).model,
            res == old(self).model(old(store)).pop_frame(max_len as int).frame,
            old(self).model(old(store)).pending_send.len() == 0 ==> final(store)@ == old(store)@
                && *final(self) == *old(self),
    {
        let ghost goal = self.model(store).pop_frame(max_len as int);
        let ghost mut taken = false;
        loop
            invariant
                self.wf(store),
                store.ids() == old(store).ids(),
                receive_links_kept(old(store)@, store@),
                self.model(store).pop_frame(max_len as int) == goal,
                goal == old(self).model(old(store)).pop_frame(max_len as int),
                taken ==> old(self).model(old(store)).pending_send.len() > 0,
                !taken ==> store@ == old(store)@ && *self == *old(self),
            decreases self.model(store).pending_send.len(),
        {
            let key = match self.next_scheduled(store) {
                Some(key) => key,
                None => {
                    return None;
                },
            };
            proof {
                taken = true;
            }
            match self.take_from(store, key, max_len) {
                Some(frame) => {
                    return Some(frame);
                },
                None => {},
            }
        }
    }

    /// One step of draining the pending frames into the codec. The caller
    /// reports what the codec did; the answer is what to ask of the codec
    /// next.
    ///
    /// What is left of the codec's last DATA frame is taken back first.
    /// After a flush that left nothing to take back, all is written.
    /// Otherwise the next frame is taken for writing, or a flush is asked
    /// for if no stream has a frame to give.
    pub fn poll_complete(&mut self, store: &mut Store, event: DrainEvent) -> (action: DrainAction)
        requires
            old(self).wf(old(store)),
            Model::reclaims(event.spec_last()) ==> old(store)@.contains_key(
                event.spec_last().unwrap().data.stream.0,
            ),
        ensures
            final(self).wf(final(store)),
            final(store).ids() == old(store).ids(),
            receive_links_kept(old(store)@, final(store)@),
            final(self).model(final(store)) == old(self).model(old(store)).drain(event).model,
            action == old(self).model(old(store)).drain(event).action,
            !Model::reclaims(event.spec_last()) && (event is Flushed || old(self).model(
                old(store),
            ).pending_send.len() == 0) ==> final(store)@ == old(store)@
                && *final(self) == *old(self),
    {
        let (last, max_frame_len, flushed) = match event {
            DrainEvent::Ready { last, max_frame_len } => (last, max_frame_len, false),
            DrainEvent::Flushed { last, max_frame_len } => (last, max_frame_len, true),
        };
        let reclaimed = self.reclaim_frame(store, last);
        if flushed && !reclaimed {
            return DrainAction::Done;
        }
        match self.pop_frame(store, max_frame_len) {
            Some(frame) => DrainAction::Send(frame),
            None => DrainAction::Flush,
        }
    }
}

/// What the codec did since the last step of draining.
pub enum DrainEvent {
    /// The codec is ready for a frame. `last` is what it holds of the last
    /// DATA frame it was given, and `max_frame_len` the largest payload it
    /// takes.
    Ready { last: Option<Data<Prioritized>>, max_frame_len: usize },
    /// The codec has flushed all it was given.
    Flushed { last: Option<Data<Prioritized>>, max_frame_len: usize },
}

/// What to ask of the codec next.
pub enum DrainAction {
    /// Write this frame, then report `Ready` once the codec is ready again.
    Send(Frame<Prioritized>),
    /// Flush, then report `Flushed`.
    Flush,
    /// Everything is written.
    Done,
}

/// The outcome of one step of draining.
pub ghost struct Drained {
    pub model: Model,
    pub action: DrainAction,
}

impl DrainEvent {
    pub open spec fn spec_last(self) -> Option<Data<Prioritized>> {
        match self {
            DrainEvent::Ready { last, .. } => last,
            DrainEvent::Flushed { last, .. } => last,
        }
    }

    pub open spec fn spec_max_frame_len(self) -> usize {
        match self {
            DrainEvent::Ready { max_frame_len, .. } => max_frame_len,
            DrainEvent::Flushed { max_frame_len, .. } => max_frame_len,
        }
    }
}

impl Model {
    /// Draining leaves no window below zero that was not below it before.
    pub proof fn lemma_windows_drain(self, event: DrainEvent)
        requires
            self.inv(),
            forall|i: int|
                0 <= i < self.pending_send.len() ==> self.streams.contains_key(
                    #[trigger] self.pending_send[i].0,
                ),
            Model::reclaims(event.spec_last()) ==> self.streams.contains_key(
                event.spec_last().unwrap().data.stream.0,
            ),
        ensures
            self.windows_kept(self.drain(event).model),
    {
        let m1 = self.reclaim_frame(event.spec_last());
        assert(m1.streams == self.streams);
        assert(m1.frames.dom() =~= self.frames.dom());
        assert(m1.total_available() == self.total_available());
        if !(event is Flushed && !Model::reclaims(event.spec_last())) {
            assert forall|i: int| 0 <= i < m1.pending_send.len() implies m1.streams.contains_key(
                #[trigger] m1.pending_send[i].0,
            ) by {
                if i < self.pending_send.len() {
                    assert(m1.pending_send[i] == self.pending_send[i]);
                }
            }
            m1.lemma_pop_frame(event.spec_max_frame_len() as int);
        }
    }

    /// One step of draining the pending frames into the codec.
    pub open spec fn drain(self, event: DrainEvent) -> Drained {
        let m1 = self.reclaim_frame(event.spec_last());
        if event is Flushed && !Model::reclaims(event.spec_last()) {
            Drained { model: m1, action: DrainAction::Done }
        } else {
            let popped = m1.pop_frame(event.spec_max_frame_len() as int);
            Drained {
                model: popped.model,
                action: match popped.frame {
                    Some(frame) => DrainAction::Send(frame),
                    None => DrainAction::Flush,
                },
            }
        }
    }
}

} // verus!
