//! The store of stream records, and the queues that thread through it.
//!
//! Records live in a `slab::Slab` and are named by their slot, a `Key`.
//! The queues hold keys and link their members through fields of the
//! records, so a record can be reached from several places at once without
//! any of them holding a borrow.

use crate::frame::StreamId;
use crate::proto::streams::stream::{QueueId, Stream};
use slab::Slab;
use std::collections::HashMap;
use std::marker::PhantomData;
use vstd::prelude::*;
use vstd::std_specs::iter::IteratorSpec;

verus! {

broadcast use vstd::std_specs::hash::group_hash_axioms;

/// `slab::Slab`, an arena that hands out a slot index for each value put
/// into it. What it holds is known only through `slab_entries`.
#[verifier::external_type_specification]
#[verifier::external_body]
#[verifier::reject_recursive_types(T)]
pub struct ExSlab<T>(slab::Slab<T>);

/// The occupied slots of a slab of streams, each with the stream in it.
pub uninterp spec fn slab_entries(slab: Slab<Stream>) -> Map<usize, Stream>;

/// `Slab::new`: a slab without occupied slots.
#[verifier::external_body]
fn slab_new() -> (slab: Slab<Stream>)
    ensures
        slab_entries(slab) =~= Map::empty(),
{
    Slab::new()
}

/// `Slab::insert`: puts the value into a slot that was vacant and returns
/// the slot's index; every other slot stays as it was. As with `Vec::push`,
/// running out of memory is not part of what is stated.
#[verifier::external_body]
fn slab_insert(slab: &mut Slab<Stream>, val: Stream) -> (key: usize)
    ensures
        !slab_entries(*old(slab)).contains_key(key),
        slab_entries(*final(slab)) == slab_entries(*old(slab)).insert(key, val),
{
    slab.insert(val)
}

/// `Index::index` of `Slab`: the value in an occupied slot. It panics on a
/// vacant slot, which `requires` leaves out.
#[verifier::external_body]
fn slab_index(slab: &Slab<Stream>, key: usize) -> (stream: &Stream)
    requires
        slab_entries(*slab).contains_key(key),
    ensures
        *stream == slab_entries(*slab)[key],
{
    &slab[key]
}

/// `IndexMut::index_mut` of `Slab`: exclusive access to the value in an
/// occupied slot. What the caller leaves there is what the slot holds
/// afterwards, and no other slot changes. It panics on a vacant slot, which
/// `requires` leaves out.
#[verifier::external_body]
fn slab_index_mut(slab: &mut Slab<Stream>, key: usize) -> (stream: &mut Stream)
    requires
        slab_entries(*old(slab)).contains_key(key),
    ensures
        *stream == slab_entries(*old(slab))[key],
        slab_entries(*final(slab)) == slab_entries(*old(slab)).insert(key, *final(stream)),
{
    &mut slab[key]
}

/// `Slab::remove`: takes the value out of an occupied slot, which is vacant
/// afterwards; every other slot stays as it was. It panics on a vacant
/// slot, which `requires` leaves out.
#[verifier::external_body]
fn slab_remove(slab: &mut Slab<Stream>, key: usize) -> (stream: Stream)
    requires
        slab_entries(*old(slab)).contains_key(key),
    ensures
        stream == slab_entries(*old(slab))[key],
        slab_entries(*final(slab)) == slab_entries(*old(slab)).remove(key),
{
    slab.remove(key)
}

/// Names a record in the store.
#[derive(Debug, Clone, Copy, PartialEq, Eq, Structural)]
pub struct Key(pub usize);

/// Storage for the streams of one connection.
pub struct Store {
    slab: Slab<Stream>,
    ids: HashMap<u32, usize>,
}

/// The two ends of a queue that is not empty.
#[derive(Debug, Clone, Copy, PartialEq, Eq, Structural)]
pub struct Indices {
    pub head: Key,
    pub tail: Key,
}

/// A queue of streams, linked through the fields that `N` names.
pub struct Queue<N: Next> {
    indices: Option<Indices>,
    keys: Ghost<Seq<Key>>,
    _p: PhantomData<N>,
}

/// Names the pair of fields of `Stream` through which one kind of queue is
/// linked: the key of the next member, and the membership flag.
pub trait Next {
    /// Which queue the fields belong to.
    spec fn id() -> QueueId;

    fn next(stream: &Stream) -> (key: Option<Key>)
        ensures
            key == stream.next_in(Self::id()),
    ;

    fn set_next(stream: &mut Stream, key: Option<Key>)
        ensures
            *final(stream) == old(stream).with_next(Self::id(), key),
    ;

    fn take_next(stream: &mut Stream) -> (key: Option<Key>)
        ensures
            key == old(stream).next_in(Self::id()),
            *final(stream) == old(stream).with_next(Self::id(), None),
    ;

    fn is_queued(stream: &Stream) -> (queued: bool)
        ensures
            queued == stream.queued_in(Self::id()),
    ;

    fn set_queued(stream: &mut Stream, val: bool)
        ensures
            *final(stream) == old(stream).with_queued(Self::id(), val),
    ;
}

/// The outcome of looking a stream identifier up for insertion.
pub enum Entry {
    Occupied(OccupiedEntry),
    Vacant(VacantEntry),
}

/// A stream identifier that the store holds a record for.
pub struct OccupiedEntry {
    key: Key,
}

/// A stream identifier that the store holds no record for yet.
pub struct VacantEntry {
    id: StreamId,
}

impl View for Store {
    type V = Map<usize, Stream>;

    /// The records by their slot.
    closed spec fn view(&self) -> Map<usize, Stream> {
        slab_entries(self.slab)
    }
}

/// Two states of the store hold the same streams but for the links of the
/// queue `q`.
pub open spec fn same_but_links(
    before: Map<usize, Stream>,
    after: Map<usize, Stream>,
    q: QueueId,
) -> bool {
    &&& after.dom() == before.dom()
    &&& forall|k: usize| #[trigger]
        before.contains_key(k) ==> {
            &&& after[k].record() == before[k].record()
            &&& after[k].pending_send == before[k].pending_send
            &&& forall|other: QueueId|
                other != q ==> after[k].next_in(other) == before[k].next_in(other)
                    && after[k].queued_in(other) == before[k].queued_in(other)
        }
}

/// No stream has entered or left the store, and every stream's link and
/// flag for the queue of streams to accept and for the queue of streams
/// that owe a window update are as they were. This is what the sending
/// side leaves alone of the fields through which queues are linked.
pub open spec fn receive_links_kept(before: Map<usize, Stream>, after: Map<usize, Stream>) -> bool {
    &&& after.dom() == before.dom()
    &&& forall|k: usize| #[trigger]
        before.contains_key(k) ==> {
            &&& after[k].next_in(QueueId::Accept) == before[k].next_in(QueueId::Accept)
            &&& after[k].queued_in(QueueId::Accept) == before[k].queued_in(QueueId::Accept)
            &&& after[k].next_in(QueueId::WindowUpdate) == before[k].next_in(
                QueueId::WindowUpdate,
            )
            &&& after[k].queued_in(QueueId::WindowUpdate) == before[k].queued_in(
                QueueId::WindowUpdate,
            )
        }
}

/// `keys` holds, in order, the slots that `slots` gives for the first
/// identifiers of `ids`.
spec fn slots_of(keys: Seq<Key>, ids: Seq<&u32>, slots: Map<u32, usize>) -> bool {
    forall|i: int|
        #![trigger ids[i]]
        0 <= i < keys.len() ==> slots.contains_key(*ids[i]) && keys[i].0 == slots[*ids[i]]
}

impl Store {
    /// The slot of each stream identifier.
    pub closed spec fn ids(&self) -> Map<u32, usize> {
        self.ids@
    }

    /// Identifiers and records correspond one to one.
    pub closed spec fn wf(&self) -> bool {
        &&& self@.dom().finite()
        &&& forall|id: u32| #[trigger]
            self.ids@.contains_key(id) ==> self@.contains_key(self.ids@[id])
                && self@[self.ids@[id]].id.0 == id
        &&& forall|k: usize| #[trigger]
            self@.contains_key(k) ==> self.ids@.contains_key(self@[k].id.0)
                && self.ids@[self@[k].id.0] == k
    }

    /// In a well-formed store the record found under an identifier carries
    /// that identifier, and every record is found under its own.
    pub proof fn lemma_wf(&self)
        requires
            self.wf(),
        ensures
            self@.dom().finite(),
            forall|id: u32| #[trigger]
                self.ids().contains_key(id) ==> self@.contains_key(self.ids()[id])
                    && self@[self.ids()[id]].id.0 == id,
            forall|k: usize| #[trigger]
                self@.contains_key(k) ==> self.ids().contains_key(self@[k].id.0)
                    && self.ids()[self@[k].id.0] == k,
    {
    }

    pub fn new() -> (store: Store)
        ensures
            store.wf(),
            store@ == Map::<usize, Stream>::empty(),
            store.ids() == Map::<u32, usize>::empty(),
    {
        Store { slab: slab_new(), ids: HashMap::new() }
    }

    /// Looks a stream up by its identifier.
    pub fn find_mut(&self, id: &StreamId) -> (res: Option<Key>)
        requires
            self.wf(),
        ensures
            match res {
                Some(key) => self.ids().contains_key(id.0) && key.0 == self.ids()[id.0]
                    && self@.contains_key(key.0) && self@[key.0].id == *id,
                None => !self.ids().contains_key(id.0),
            },
    {
        match self.ids.get(&id.0) {
            Some(key) => Some(Key(*key)),
            None => None,
        }
    }

    /// Adds a stream under an identifier that the store does not hold yet.
    pub fn insert(&mut self, id: StreamId, val: Stream) -> (key: Key)
        requires
            old(self).wf(),
            !old(self).ids().contains_key(id.0),
            val.id == id,
        ensures
            final(self).wf(),
            !old(self)@.contains_key(key.0),
            final(self)@ == old(self)@.insert(key.0, val),
            final(self).ids() == old(self).ids().insert(id.0, key.0),
    {
        let key = slab_insert(&mut self.slab, val);
        self.ids.insert(id.0, key);
        Key(key)
    }

    /// Looks a stream identifier up, for insertion where it is not held.
    pub fn find_entry(&self, id: StreamId) -> (entry: Entry)
        requires
            self.wf(),
        ensures
            match entry {
                Entry::Occupied(e) => self.ids().contains_key(id.0) && e.spec_key().0
                    == self.ids()[id.0] && self@.contains_key(e.spec_key().0),
                Entry::Vacant(e) => !self.ids().contains_key(id.0) && e.spec_id() == id,
            },
    {
        match self.ids.get(&id.0) {
            Some(key) => Entry::Occupied(OccupiedEntry { key: Key(*key) }),
            None => Entry::Vacant(VacantEntry { id }),
        }
    }

    /// The record in slot `key`.
    pub fn get(&self, key: Key) -> (stream: &Stream)
        requires
            self@.contains_key(key.0),
        ensures
            *stream == self@[key.0],
    {
        slab_index(&self.slab, key.0)
    }

    /// Exclusive access to the record in slot `key`. The store stays well
    /// formed as long as the record keeps its identifier.
    pub fn resolve(&mut self, key: Key) -> (stream: &mut Stream)
        requires
            old(self)@.contains_key(key.0),
        ensures
            *stream == old(self)@[key.0],
            final(self)@ == old(self)@.insert(key.0, *final(stream)),
            final(self).ids() == old(self).ids(),
            old(self).wf() && final(stream).id == stream.id ==> final(self).wf(),
    {
        slab_index_mut(&mut self.slab, key.0)
    }

    /// Takes a stream out of the store. Its key and its identifier are
    /// free afterwards.
    pub fn remove(&mut self, key: Key) -> (stream: Stream)
        requires
            old(self).wf(),
            old(self)@.contains_key(key.0),
        ensures
            final(self).wf(),
            stream == old(self)@[key.0],
            final(self)@ == old(self)@.remove(key.0),
            final(self).ids() == old(self).ids().remove(stream.id.0),
    {
        let stream = slab_remove(&mut self.slab, key.0);
        let removed = self.ids.remove(&stream.id.0);
        proof {
            assert forall|k: usize| #[trigger] self@.contains_key(k) implies self.ids@.contains_key(
                self@[k].id.0,
            ) && self.ids@[self@[k].id.0] == k by {
                assert(old(self)@.contains_key(k));
            }
        }
        stream
    }

    /// The keys of all records, each once, in no particular order.
    pub fn keys(&self) -> (keys: Vec<Key>)
        requires
            self.wf(),
        ensures
            keys@.no_duplicates(),
            forall|i: int| 0 <= i < keys@.len() ==> self@.contains_key(#[trigger] keys@[i].0),
            forall|k: usize| self@.contains_key(k) ==> keys@.contains(Key(k)),
    {
        let mut out: Vec<Key> = Vec::new();
        proof {
            vstd::std_specs::hash::axiom_spec_keys_iter(&self.ids);
        }
        let ghost ids = vstd::std_specs::hash::spec_keys_iter(&self.ids).remaining();
        for id in it: self.ids.keys()
            invariant
                it.seq() == ids,
                ids.unref().to_set() == self.ids@.dom(),
                out@.len() == it.index(),
                slots_of(out@, ids, self.ids@),
        {
            proof {
                let i = it.index();
                assert(id == ids[i]);
                assert(ids.unref()[i] == *ids[i]);
                assert(ids.unref().contains(ids.unref()[i]));
                assert(ids.unref().to_set().contains(ids.unref()[i]));
                assert(self.ids@.contains_key(*id));
            }
            let found = self.ids.get(id);
            assert(found is Some);

            let ghost before = out@;
            out.push(Key(*found.unwrap()));
            assert(out@[before.len() as int].0 == self.ids@[*id]);
        }
        proof {
            assert forall|i: int, j: int|
                0 <= i < out@.len() && 0 <= j < out@.len() && i != j implies out@[i] != out@[j] by {
                assert(ids[i] != ids[j]);
                assert(self@[self.ids@[*ids[i]]].id.0 == *ids[i]);
                assert(self@[self.ids@[*ids[j]]].id.0 == *ids[j]);
            }
            assert forall|i: int| 0 <= i < out@.len() implies self@.contains_key(
                #[trigger] out@[i].0,
            ) by {
                assert(self.ids@.contains_key(*ids[i]));
            }
            assert forall|k: usize| self@.contains_key(k) implies out@.contains(Key(k)) by {
                let id = self@[k].id.0;
                assert(self.ids@.dom().contains(id));
                assert(ids.unref().to_set().contains(id));
                assert(ids.unref().contains(id));
                let i = choose|i: int| 0 <= i < ids.unref().len() && ids.unref()[i] == id;
                assert(*ids[i] == id);
                assert(out@[i] == Key(k));
            }
        }
        out
    }
}

impl OccupiedEntry {
    pub closed spec fn spec_key(&self) -> Key {
        self.key
    }

    /// The key of the record found.
    #[verifier::when_used_as_spec(spec_key)]
    pub fn key(&self) -> (key: Key)
        ensures
            key == self.spec_key(),
    {
        self.key
    }
}

impl VacantEntry {
    pub closed spec fn spec_id(&self) -> StreamId {
        self.id
    }

    /// Adds the stream under the identifier that was looked up.
    pub fn insert(self, store: &mut Store, value: Stream) -> (key: Key)
        requires
            old(store).wf(),
            !old(store).ids().contains_key(self.spec_id().0),
            value.id == self.spec_id(),
        ensures
            final(store).wf(),
            !old(store)@.contains_key(key.0),
            final(store)@ == old(store)@.insert(key.0, value),
            final(store).ids() == old(store).ids().insert(self.spec_id().0, key.0),
    {
        store.insert(self.id, value)
    }
}

/// Where `steps` links of the queue `q` lead from `start`.
pub open spec fn walk(m: Map<usize, Stream>, q: QueueId, start: Option<Key>, steps: nat) -> Option<
    Key,
>
    decreases steps,
{
    if steps == 0 {
        start
    } else {
        match walk(m, q, start, (steps - 1) as nat) {
            Some(k) => if m.contains_key(k.0) {
                m[k.0].next_in(q)
            } else {
                None
            },
            None => None,
        }
    }
}

/// Some number of links of the queue `q` leads from `start` to `key`.
pub open spec fn reachable(
    m: Map<usize, Stream>,
    q: QueueId,
    start: Option<Key>,
    key: Key,
) -> bool {
    exists|steps: nat| walk(m, q, start, steps) == Some(key)
}

impl<N: Next> View for Queue<N> {
    type V = Seq<Key>;

    /// The members of the queue, first to last.
    closed spec fn view(&self) -> Seq<Key> {
        self.keys@
    }
}

impl<N: Next> Queue<N> {
    pub closed spec fn spec_indices(&self) -> Option<Indices> {
        self.indices
    }

    /// The first member, where the queue has one.
    pub open spec fn spec_head(&self) -> Option<Key> {
        match self.spec_indices() {
            Some(ix) => Some(ix.head),
            None => None,
        }
    }

    /// The queue is a chain through the store `m`: no stream is in it twice,
    /// each member is flagged and linked to the member behind it, no stream
    /// outside it is flagged or linked, and the indices name its two ends.
    pub open spec fn wf(&self, m: Map<usize, Stream>) -> bool {
        let s = self@;
        let q = N::id();
        &&& s.no_duplicates()
        &&& forall|i: int|
            #![trigger s[i]]
            0 <= i < s.len() ==> m.contains_key(s[i].0)
                && m[s[i].0].queued_in(q)
                && m[s[i].0].next_in(
                q,
            ) == (if i + 1 < s.len() {
                Some(s[i + 1])
            } else {
                None::<Key>
            })
        &&& forall|k: usize|
            #![trigger m.contains_key(k)]
            m.contains_key(k) && m[k].queued_in(q) ==> s.contains(Key(k))
        &&& forall|k: usize|
            #![trigger m.contains_key(k)]
            m.contains_key(k) && !m[k].queued_in(q) ==> m[k].next_in(q) is None
        &&& match self.spec_indices() {
            None => s.len() == 0,
            Some(ix) => s.len() > 0 && ix.head == s[0] && ix.tail == s[s.len() - 1],
        }
    }

    /// A queue stays well formed while its own links and flags are left
    /// alone.
    pub proof fn lemma_wf_kept(&self, before: Map<usize, Stream>, after: Map<usize, Stream>)
        requires
            self.wf(before),
            after.dom() == before.dom(),
            forall|k: usize|
                #![trigger before.contains_key(k)]
                before.contains_key(k) ==> after[k].next_in(N::id()) == before[k].next_in(N::id())
                    && after[k].queued_in(N::id()) == before[k].queued_in(N::id()),
        ensures
            self.wf(after),
    {
        let s = self@;
        assert forall|i: int| #![trigger s[i]] 0 <= i < s.len() implies after.contains_key(s[i].0)
            && after[s[i].0].queued_in(N::id()) && after[s[i].0].next_in(N::id()) == (if i + 1
            < s.len() {
            Some(s[i + 1])
        } else {
            None::<Key>
        }) by {
            assert(before.contains_key(s[i].0));
        }
        assert forall|k: usize|
            #![trigger after.contains_key(k)]
            after.contains_key(k) && after[k].queued_in(N::id()) implies s.contains(Key(k)) by {
            assert(before.contains_key(k));
        }
        assert forall|k: usize|
            #![trigger after.contains_key(k)]
            after.contains_key(k) && !after[k].queued_in(N::id()) implies after[k].next_in(
            N::id(),
        ) is None by {
            assert(before.contains_key(k));
        }
    }

    /// A queue of streams to accept, or of streams that owe a window
    /// update, stays well formed across whatever the sending side does to
    /// the store.
    pub proof fn lemma_wf_kept_by_sending(
        &self,
        before: Map<usize, Stream>,
        after: Map<usize, Stream>,
    )
        requires
            self.wf(before),
            receive_links_kept(before, after),
            N::id() == QueueId::Accept || N::id() == QueueId::WindowUpdate,
        ensures
            self.wf(after),
    {
        self.lemma_wf_kept(before, after);
    }

    /// A queue stays well formed when a stream is added to the store that
    /// carries neither its flag nor its link.
    pub proof fn lemma_wf_grown(&self, before: Map<usize, Stream>, key: usize, stream: Stream)
        requires
            self.wf(before),
            !before.contains_key(key),
            !stream.queued_in(N::id()),
            stream.next_in(N::id()) is None,
        ensures
            self.wf(before.insert(key, stream)),
    {
        let s = self@;
        let after = before.insert(key, stream);
        assert forall|i: int| #![trigger s[i]] 0 <= i < s.len() implies after.contains_key(s[i].0)
            && after[s[i].0].queued_in(N::id()) && after[s[i].0].next_in(N::id()) == (if i + 1
            < s.len() {
            Some(s[i + 1])
        } else {
            None::<Key>
        }) by {
            assert(before.contains_key(s[i].0));
        }
        assert forall|k: usize|
            #![trigger after.contains_key(k)]
            after.contains_key(k) && after[k].queued_in(N::id()) implies s.contains(Key(k)) by {
            assert(before.contains_key(k));
        }
        assert forall|k: usize|
            #![trigger after.contains_key(k)]
            after.contains_key(k) && !after[k].queued_in(N::id()) implies after[k].next_in(
            N::id(),
        ) is None by {
            if k != key {
                assert(before.contains_key(k));
            }
        }
    }

    /// A queue stays well formed when a stream that is not in it leaves
    /// the store.
    pub proof fn lemma_wf_shrunk(&self, before: Map<usize, Stream>, key: usize)
        requires
            self.wf(before),
            before.contains_key(key),
            !before[key].queued_in(N::id()),
        ensures
            self.wf(before.remove(key)),
    {
        let s = self@;
        let after = before.remove(key);
        assert forall|i: int| #![trigger s[i]] 0 <= i < s.len() implies after.contains_key(s[i].0)
            && after[s[i].0].queued_in(N::id()) && after[s[i].0].next_in(N::id()) == (if i + 1
            < s.len() {
            Some(s[i + 1])
        } else {
            None::<Key>
        }) by {
            assert(before.contains_key(s[i].0));
        }
        assert forall|k: usize|
            #![trigger after.contains_key(k)]
            after.contains_key(k) && after[k].queued_in(N::id()) implies s.contains(Key(k)) by {
            assert(before.contains_key(k));
        }
        assert forall|k: usize|
            #![trigger after.contains_key(k)]
            after.contains_key(k) && !after[k].queued_in(N::id()) implies after[k].next_in(
            N::id(),
        ) is None by {
            assert(before.contains_key(k));
        }
    }

    /// Following the links from the head visits the members in order and
    /// then ends.
    pub proof fn lemma_walk(&self, m: Map<usize, Stream>, steps: nat)
        requires
            self.wf(m),
        ensures
            walk(m, N::id(), self.spec_head(), steps) == (if steps < self@.len() {
                Some(self@[steps as int])
            } else {
                None::<Key>
            }),
        decreases steps,
    {
        let s = self@;
        if steps > 0 {
            self.lemma_walk(m, (steps - 1) as nat);
            if steps - 1 < s.len() {
                assert(m.contains_key(s[steps - 1].0));
            }
        }
    }

    /// A stream carries the flag of this queue exactly if it can be reached
    /// from the queue's head along the queue's links.
    pub proof fn lemma_queued_iff_reachable(&self, m: Map<usize, Stream>, key: Key)
        requires
            self.wf(m),
            m.contains_key(key.0),
        ensures
            m[key.0].queued_in(N::id()) <==> reachable(m, N::id(), self.spec_head(), key),
    {
        let s = self@;
        if m[key.0].queued_in(N::id()) {
            assert(s.contains(Key(key.0)));
            let i = choose|i: int| 0 <= i < s.len() && s[i] == key;
            self.lemma_walk(m, i as nat);
            assert(walk(m, N::id(), self.spec_head(), i as nat) == Some(key));
        }
        if reachable(m, N::id(), self.spec_head(), key) {
            let n = choose|n: nat| walk(m, N::id(), self.spec_head(), n) == Some(key);
            self.lemma_walk(m, n);
            assert(s[n as int] == key);
            assert(m[s[n as int].0].queued_in(N::id()));
        }
    }

    /// An empty queue.
    pub fn new() -> (queue: Queue<N>)
        ensures
            queue@.len() == 0,
            queue.spec_indices() is None,
    {
        Queue { indices: None, keys: Ghost(Seq::empty()), _p: PhantomData }
    }

    pub fn is_empty(&self) -> (r: bool)
        ensures
            r == (self.spec_indices() is None),
    {
        self.indices.is_none()
    }

    /// Detaches the whole list: it is returned as a queue of its own, and
    /// this queue is left empty.
    pub fn take(&mut self) -> (queue: Queue<N>)
        ensures
            queue@ == old(self)@,
            queue.spec_indices() == old(self).spec_indices(),
            final(self)@.len() == 0,
            final(self).spec_indices() is None,
    {
        let queue = Queue {
            indices: self.indices.take(),
            keys: Ghost(self.keys@),
            _p: PhantomData,
        };
        self.keys = Ghost(Seq::empty());
        queue
    }

    /// Appends the stream `key` unless it is in the queue already. Returns
    /// whether it was appended.
    pub fn push(&mut self, store: &mut Store, key: Key) -> (pushed: bool)
        requires
            old(store).wf(),
            old(self).wf(old(store)@),
            old(store)@.contains_key(key.0),
        ensures
            final(store).wf(),
            final(self).wf(final(store)@),
            final(store).ids() == old(store).ids(),
            same_but_links(old(store)@, final(store)@, N::id()),
            pushed == !old(self)@.contains(key),
            pushed ==> final(self)@ == old(self)@.push(key),
            !pushed ==> final(self)@ == old(self)@ && final(store)@ == old(store)@,
    {
        let ghost s = self.keys@;
        let ghost m = store@;
        let ghost q = N::id();
        let stream = store.resolve(key);
        if N::is_queued(stream) {
            assert(store@ =~= m);
            return false;
        }
        N::set_queued(stream, true);
        let ghost m1 = store@;
        assert(!s.contains(key)) by {
            if s.contains(key) {
                let i = choose|i: int| 0 <= i < s.len() && s[i] == key;
                assert(m[s[i].0].queued_in(q));
            }
        }
        assert(m[key.0].next_in(q) is None);
        match self.indices {
            Some(idxs) => {
                assert(m.contains_key(s[s.len() - 1].0));
                let tail = store.resolve(idxs.tail);
                N::set_next(tail, Some(key));
                self.indices = Some(Indices { head: idxs.head, tail: key });
            },
            None => {
                self.indices = Some(Indices { head: key, tail: key });
            },
        }
        self.keys = Ghost(s.push(key));
        proof {
            let s2 = s.push(key);
            let m2 = store@;
            assert(m2.dom() =~= m.dom());
            assert forall|i: int| #![trigger s2[i]] 0 <= i < s2.len() implies m2.contains_key(
                s2[i].0,
            ) && m2[s2[i].0].queued_in(q) && m2[s2[i].0].next_in(q) == (if i + 1 < s2.len() {
                Some(s2[i + 1])
            } else {
                None::<Key>
            }) by {
                if i < s.len() {
                    assert(s2[i] == s[i]);
                    assert(m.contains_key(s[i].0));
                    assert(s[i] != key);
                    if i < s.len() - 1 {
                        assert(s[i] != s[s.len() - 1]);
                    }
                }
            }
            assert forall|k: usize|
                #![trigger m2.contains_key(k)]
                m2.contains_key(k) && m2[k].queued_in(q) implies s2.contains(Key(k)) by {
                if k == key.0 {
                    assert(s2[s.len() as int] == key);
                } else {
                    assert(m.contains_key(k));
                    assert(m[k].queued_in(q));
                    let i = choose|i: int| 0 <= i < s.len() && s[i] == Key(k);
                    assert(s2[i] == Key(k));
                }
            }
            assert forall|k: usize|
                #![trigger m2.contains_key(k)]
                m2.contains_key(k) && !m2[k].queued_in(q) implies m2[k].next_in(q) is None by {
                assert(m.contains_key(k));
                if s.len() > 0 && k == s[s.len() - 1].0 {
                    assert(m[s[s.len() - 1].0].queued_in(q));
                }
            }
            assert forall|i: int, j: int|
                0 <= i < s2.len() && 0 <= j < s2.len() && i != j implies s2[i] != s2[j] by {
                if i < s.len() && j < s.len() {
                    assert(s[i] != s[j]);
                } else if i < s.len() {
                    assert(s.contains(s[i]));
                } else {
                    assert(s.contains(s[j]));
                }
            }
            assert forall|k: usize| #[trigger] m.contains_key(k) implies {
                &&& m2[k].record() == m[k].record()
                &&& m2[k].pending_send == m[k].pending_send
                &&& forall|other: QueueId|
                    other != q ==> m2[k].next_in(other) == m[k].next_in(other) && m2[k].queued_in(
                        other,
                    ) == m[k].queued_in(other)
            } by {}
        }
        true
    }

    /// Removes the first stream of the queue, if there is one, and returns
    /// its key.
    pub fn pop(&mut self, store: &mut Store) -> (res: Option<Key>)
        requires
            old(store).wf(),
            old(self).wf(old(store)@),
        ensures
            final(store).wf(),
            final(self).wf(final(store)@),
            final(store).ids() == old(store).ids(),
            same_but_links(old(store)@, final(store)@, N::id()),
            match res {
                Some(key) => old(self)@.len() > 0 && key == old(self)@[0] && final(self)@ == old(
                    self,
                )@.drop_first() && old(store)@.contains_key(key.0),
                None => old(self)@.len() == 0 && *final(self) == *old(self) && final(store)@
                    == old(store)@,
            },
    {
        let ghost s = self.keys@;
        let ghost m = store@;
        let ghost q = N::id();
        match self.indices {
            Some(idxs) => {
                assert(m.contains_key(s[0].0));
                let stream = store.resolve(idxs.head);
                if idxs.head == idxs.tail {
                    assert(s.len() == 1) by {
                        if s.len() > 1 {
                            assert(s[0] != s[s.len() - 1]);
                        }
                    }
                    self.indices = None;
                } else {
                    assert(s.len() > 1);
                    let next = N::take_next(stream);
                    self.indices = Some(Indices { head: next.unwrap(), tail: idxs.tail });
                }
                N::set_queued(stream, false);
                self.keys = Ghost(s.drop_first());
                proof {
                    let s2 = s.drop_first();
                    let m2 = store@;
                    assert(m2.dom() =~= m.dom());
                    assert forall|i: int| 0 <= i < s2.len() implies s2[i] == s[i + 1] && s2[i]
                        != s[0] by {}
                    assert forall|i: int|
                        #![trigger s2[i]]
                        0 <= i < s2.len() implies m2.contains_key(s2[i].0) && m2[s2[i].0].queued_in(
                        q,
                    ) && m2[s2[i].0].next_in(q) == (if i + 1 < s2.len() {
                        Some(s2[i + 1])
                    } else {
                        None::<Key>
                    }) by {
                        assert(s2[i] == s[i + 1]);
                        assert(m.contains_key(s[i + 1].0));
                    }
                    assert forall|k: usize|
                        #![trigger m2.contains_key(k)]
                        m2.contains_key(k) && m2[k].queued_in(q) implies s2.contains(Key(k)) by {
                        assert(m.contains_key(k));
                        assert(k != s[0].0);
                        assert(m[k].queued_in(q));
                        let i = choose|i: int| 0 <= i < s.len() && s[i] == Key(k);
                        assert(s2[i - 1] == Key(k));
                    }
                    assert forall|k: usize|
                        #![trigger m2.contains_key(k)]
                        m2.contains_key(k) && !m2[k].queued_in(q) implies m2[k].next_in(
                        q,
                    ) is None by {
                        assert(m.contains_key(k));
                    }
                    assert forall|k: usize| #[trigger] m.contains_key(k) implies {
                        &&& m2[k].record() == m[k].record()
                        &&& m2[k].pending_send == m[k].pending_send
                        &&& forall|other: QueueId|
                            other != q ==> m2[k].next_in(other) == m[k].next_in(other)
                                && m2[k].queued_in(other) == m[k].queued_in(other)
                    } by {}
                }
                Some(idxs.head)
            },
            None => None,
        }
    }
}

} // verus!
