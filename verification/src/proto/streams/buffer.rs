//! One arena of slots for a whole connection, and the queues that live in
//! it.
//!
//! A `Deque` is only a pair of slot indices; its items are chained through
//! the arena, so that a queue costs nothing while it is empty and every
//! stream of a connection shares one allocation.

use vstd::prelude::*;

verus! {

/// One entry of the arena: an item and the slot of the item behind it.
pub struct Slot<T> {
    pub value: T,
    pub next: Option<usize>,
}

/// The arena. Its view maps every occupied slot to its entry.
pub struct Buffer<T> {
    slots: Vec<Option<Slot<T>>>,
    free: Vec<usize>,
}

/// First and last slot of a queue that is not empty.
#[derive(Debug, Clone, Copy, PartialEq, Eq, Structural)]
pub struct Indices {
    pub head: usize,
    pub tail: usize,
}

/// A first-in first-out queue whose items live in a `Buffer`.
pub struct Deque {
    indices: Option<Indices>,
    chain: Ghost<Seq<usize>>,
}

impl<T> View for Buffer<T> {
    type V = Map<usize, Slot<T>>;

    closed spec fn view(&self) -> Map<usize, Slot<T>> {
        Map::new(
            |k: usize| k < self.slots@.len() && self.slots@[k as int] is Some,
            |k: usize| self.slots@[k as int].unwrap(),
        )
    }
}

impl<T> Buffer<T> {
    /// Every slot on the free list is vacant, and none is listed twice.
    pub closed spec fn wf(&self) -> bool {
        &&& self.free@.no_duplicates()
        &&& forall|i: int|
            #![trigger self.free@[i]]
            0 <= i < self.free@.len() ==> self.free@[i] < self.slots@.len()
                && self.slots@[self.free@[i] as int] is None
    }

    pub fn new() -> (buf: Buffer<T>)
        ensures
            buf.wf(),
            buf@ == Map::<usize, Slot<T>>::empty(),
    {
        let buf = Buffer { slots: Vec::new(), free: Vec::new() };
        assert(buf@ =~= Map::<usize, Slot<T>>::empty());
        buf
    }

    /// Stores `slot` in a vacant slot and returns its index.
    fn insert(&mut self, slot: Slot<T>) -> (key: usize)
        requires
            old(self).wf(),
        ensures
            final(self).wf(),
            !old(self)@.contains_key(key),
            final(self)@ == old(self)@.insert(key, slot),
    {
        match self.free.pop() {
            Some(key) => {
                assert(old(self).free@[old(self).free@.len() - 1] == key);
                self.slots.set(key, Some(slot));
                assert(self@ =~= old(self)@.insert(key, slot));
                assert forall|i: int|
                    #![trigger self.free@[i]]
                    0 <= i < self.free@.len() implies self.free@[i] < self.slots@.len()
                    && self.slots@[self.free@[i] as int] is None by {
                    assert(self.free@[i] == old(self).free@[i]);
                    assert(old(self).free@[i] != old(self).free@[old(self).free@.len() - 1]);
                }
                key
            },
            None => {
                self.slots.push(Some(slot));
                let key = self.slots.len() - 1;
                assert(self@ =~= old(self)@.insert(key, slot));
                key
            },
        }
    }

    /// Empties the slot `key` and returns what it held.
    fn remove(&mut self, key: usize) -> (slot: Slot<T>)
        requires
            old(self).wf(),
            old(self)@.contains_key(key),
        ensures
            final(self).wf(),
            slot == old(self)@[key],
            final(self)@ == old(self)@.remove(key),
    {
        let mut taken: Option<Slot<T>> = None;
        self.slots.set_and_swap(key, &mut taken);
        self.free.push(key);
        assert(self@ =~= old(self)@.remove(key));
        assert forall|i: int, j: int|
            0 <= i < self.free@.len() && 0 <= j < self.free@.len() && i != j implies self.free@[i]
            != self.free@[j] by {
            if i == self.free@.len() - 1 {
                assert(self.free@[j] == old(self).free@[j]);
            } else if j == self.free@.len() - 1 {
                assert(self.free@[i] == old(self).free@[i]);
            }
        }
        assert forall|i: int|
            #![trigger self.free@[i]]
            0 <= i < self.free@.len() implies self.free@[i] < self.slots@.len()
            && self.slots@[self.free@[i] as int] is None by {
            if i < self.free@.len() - 1 {
                assert(self.free@[i] == old(self).free@[i]);
            }
        }
        taken.unwrap()
    }

    /// Points the entry in slot `key` at `next`.
    fn set_next(&mut self, key: usize, next: Option<usize>)
        requires
            old(self).wf(),
            old(self)@.contains_key(key),
        ensures
            final(self).wf(),
            final(self)@ == old(self)@.insert(
                key,
                Slot { value: old(self)@[key].value, next },
            ),
    {
        let mut taken: Option<Slot<T>> = None;
        self.slots.set_and_swap(key, &mut taken);
        let mut slot = taken.unwrap();
        slot.next = next;
        self.slots.set(key, Some(slot));
        assert(self@ =~= old(self)@.insert(key, Slot { value: old(self)@[key].value, next }));
        assert forall|i: int|
            #![trigger self.free@[i]]
            0 <= i < self.free@.len() implies self.free@[i] < self.slots@.len()
            && self.slots@[self.free@[i] as int] is None by {
            assert(self.free@[i] == old(self).free@[i]);
        }
    }
}

/// What an operation on one queue may do to the arena: slots outside the
/// queue stay as they are, and the slots that the queue gains were vacant.
pub open spec fn touches_only<T>(
    before: Map<usize, Slot<T>>,
    after: Map<usize, Slot<T>>,
    chain_before: Seq<usize>,
    chain_after: Seq<usize>,
) -> bool {
    &&& forall|k: usize|
        #![trigger after.contains_key(k)]
        before.contains_key(k) && !chain_before.contains(k) ==> after.contains_key(k) && after[k]
            == before[k]
    &&& forall|i: int|
        0 <= i < chain_after.len() ==> chain_before.contains(#[trigger] chain_after[i])
            || !before.contains_key(chain_after[i])
}

/// No slot belongs to both chains.
pub open spec fn disjoint(a: Seq<usize>, b: Seq<usize>) -> bool {
    forall|i: int, j: int| 0 <= i < a.len() && 0 <= j < b.len() ==> a[i] != b[j]
}

impl Deque {
    /// The slots of the queue, first to last.
    pub closed spec fn chain(&self) -> Seq<usize> {
        self.chain@
    }

    pub closed spec fn spec_indices(&self) -> Option<Indices> {
        self.indices
    }

    /// The chain lies in the arena, each slot points at the one behind it,
    /// and the indices name its two ends.
    pub open spec fn wf<T>(&self, buf: Map<usize, Slot<T>>) -> bool {
        let c = self.chain();
        &&& c.no_duplicates()
        &&& forall|i: int|
            0 <= i < c.len() ==> buf.contains_key(#[trigger] c[i]) && buf[c[i]].next == (if i
                + 1 < c.len() {
                Some(c[i + 1])
            } else {
                None::<usize>
            })
        &&& match self.spec_indices() {
            None => c.len() == 0,
            Some(ix) => c.len() > 0 && ix.head == c[0] && ix.tail == c[c.len() - 1],
        }
    }

    /// The items of the queue, first to last.
    pub open spec fn items<T>(&self, buf: Map<usize, Slot<T>>) -> Seq<T> {
        Seq::new(self.chain().len(), |i: int| buf[self.chain()[i]].value)
    }

    /// A queue keeps its items whatever another queue does to the arena.
    pub proof fn lemma_untouched<T>(
        &self,
        before: Map<usize, Slot<T>>,
        after: Map<usize, Slot<T>>,
        chain_before: Seq<usize>,
        chain_after: Seq<usize>,
    )
        requires
            self.wf(before),
            touches_only(before, after, chain_before, chain_after),
            disjoint(self.chain(), chain_before),
        ensures
            self.wf(after),
            self.items(after) == self.items(before),
            disjoint(self.chain(), chain_after),
    {
        let c = self.chain();
        assert forall|i: int| 0 <= i < c.len() implies after.contains_key(#[trigger] c[i])
            && after[c[i]] == before[c[i]] by {
            assert(before.contains_key(c[i]));
            if chain_before.contains(c[i]) {
                let j = choose|j: int| 0 <= j < chain_before.len() && chain_before[j] == c[i];
                assert(c[i] != chain_before[j]);
            }
        }
        assert(self.items(after) =~= self.items(before));
        assert forall|i: int, j: int| 0 <= i < c.len() && 0 <= j < chain_after.len() implies c[i]
            != chain_after[j] by {
            assert(before.contains_key(c[i]));
            if chain_before.contains(chain_after[j]) {
                let m = choose|m: int| 0 <= m < chain_before.len()
                    && chain_before[m] == chain_after[j];
                assert(c[i] != chain_before[m]);
            }
        }
    }

    pub fn new() -> (deque: Deque)
        ensures
            deque.chain().len() == 0,
            deque.spec_indices() is None,
    {
        Deque { indices: None, chain: Ghost(Seq::empty()) }
    }

    pub fn is_empty(&self) -> (r: bool)
        ensures
            r == (self.spec_indices() is None),
    {
        self.indices.is_none()
    }

    /// Appends `value` at the back.
    pub fn push_back<T>(&mut self, buf: &mut Buffer<T>, value: T)
        requires
            old(buf).wf(),
            old(self).wf(old(buf)@),
        ensures
            final(buf).wf(),
            final(self).wf(final(buf)@),
            final(self).items(final(buf)@) == old(self).items(old(buf)@).push(value),
            touches_only(old(buf)@, final(buf)@, old(self).chain(), final(self).chain()),
    {
        let ghost c = self.chain@;
        let key = buf.insert(Slot { value, next: None });
        match self.indices {
            Some(idxs) => {
                buf.set_next(idxs.tail, Some(key));
                self.indices = Some(Indices { head: idxs.head, tail: key });
            },
            None => {
                self.indices = Some(Indices { head: key, tail: key });
            },
        }
        self.chain = Ghost(c.push(key));
        proof {
            let c2 = c.push(key);
            assert forall|i: int, j: int| 0 <= i < c2.len()
                && 0 <= j < c2.len()
                && i != j implies c2[i]
                != c2[j] by {
                if i < c.len() {
                    assert(old(buf)@.contains_key(c[i]));
                }
                if j < c.len() {
                    assert(old(buf)@.contains_key(c[j]));
                }
            }
            assert forall|i: int| 0 <= i < c2.len() implies buf@.contains_key(#[trigger] c2[i])
                && buf@[c2[i]].next == (if i + 1 < c2.len() {
                Some(c2[i + 1])
            } else {
                None::<usize>
            }) by {
                if i < c.len() {
                    assert(old(buf)@.contains_key(c[i]));
                    assert(c[i] != key);
                }
            }
            assert forall|i: int| 0 <= i < c2.len() implies buf@[c2[i]].value == (if i < c.len() {
                old(buf)@[c[i]].value
            } else {
                value
            }) by {
                if i < c.len() {
                    assert(old(buf)@.contains_key(c[i]));
                }
            }
            assert(self.items(buf@) =~= old(self).items(old(buf)@).push(value));
            assert forall|k: usize|
                old(buf)@.contains_key(k) && !c.contains(k) implies #[trigger] buf@.contains_key(k)
                && buf@[k] == old(buf)@[k] by {
                if c.len() > 0 {
                    assert(c.contains(c[c.len() - 1]));
                }
            }
            assert forall|i: int| 0 <= i < c2.len() implies c.contains(#[trigger] c2[i])
                || !old(buf)@.contains_key(c2[i]) by {
                if i < c.len() {
                    assert(c[i] == c2[i]);
                }
            }
        }
    }

    /// Puts `value` in front of every other item.
    pub fn push_front<T>(&mut self, buf: &mut Buffer<T>, value: T)
        requires
            old(buf).wf(),
            old(self).wf(old(buf)@),
        ensures
            final(buf).wf(),
            final(self).wf(final(buf)@),
            final(self).items(final(buf)@) == seq![value] + old(self).items(old(buf)@),
            touches_only(old(buf)@, final(buf)@, old(self).chain(), final(self).chain()),
    {
        let ghost c = self.chain@;
        let key = match self.indices {
            Some(idxs) => {
                let key = buf.insert(Slot { value, next: Some(idxs.head) });
                self.indices = Some(Indices { head: key, tail: idxs.tail });
                key
            },
            None => {
                let key = buf.insert(Slot { value, next: None });
                self.indices = Some(Indices { head: key, tail: key });
                key
            },
        };
        self.chain = Ghost(seq![key] + c);
        proof {
            let c2 = seq![key] + c;
            assert forall|i: int| 0 < i < c2.len() implies c2[i] == c[i - 1]
                && old(buf)@.contains_key(c2[i]) && c2[i] != key by {
                assert(old(buf)@.contains_key(c[i - 1]));
            }
            assert forall|i: int, j: int| 0 <= i < c2.len()
                && 0 <= j < c2.len()
                && i != j implies c2[i]
                != c2[j] by {
                if i > 0 && j > 0 {
                    assert(c[i - 1] != c[j - 1]);
                }
            }
            assert forall|i: int| 0 <= i < c2.len() implies buf@.contains_key(#[trigger] c2[i])
                && buf@[c2[i]].next == (if i + 1 < c2.len() {
                Some(c2[i + 1])
            } else {
                None::<usize>
            }) by {
                if i > 0 {
                    assert(c2[i] == c[i - 1]);
                    assert(old(buf)@[c[i - 1]].next == (if i < c.len() {
                        Some(c[i])
                    } else {
                        None::<usize>
                    }));
                }
            }
            assert(self.items(buf@) =~= seq![value] + old(self).items(old(buf)@));
            assert forall|i: int| 0 <= i < c2.len() implies c.contains(#[trigger] c2[i])
                || !old(buf)@.contains_key(c2[i]) by {
                if i > 0 {
                    assert(c[i - 1] == c2[i]);
                }
            }
        }
    }

    /// Takes the first item, if there is one.
    pub fn pop_front<T>(&mut self, buf: &mut Buffer<T>) -> (res: Option<T>)
        requires
            old(buf).wf(),
            old(self).wf(old(buf)@),
        ensures
            final(buf).wf(),
            final(self).wf(final(buf)@),
            touches_only(old(buf)@, final(buf)@, old(self).chain(), final(self).chain()),
            match res {
                Some(value) => old(self).items(old(buf)@).len() > 0 && value == old(self).items(
                    old(buf)@,
                )[0] && final(self).items(final(buf)@) == old(self).items(old(buf)@).drop_first(),
                None => old(self).items(old(buf)@).len() == 0 && *final(self) == *old(self)
                    && *final(buf) == *old(buf),
            },
    {
        let ghost c = self.chain@;
        match self.indices {
            Some(idxs) => {
                assert(old(buf)@.contains_key(c[0]));
                let slot = buf.remove(idxs.head);
                if idxs.head == idxs.tail {
                    assert(c.len() == 1) by {
                        if c.len() > 1 {
                            assert(c[0] != c[c.len() - 1]);
                        }
                    }
                    self.indices = None;
                } else {
                    assert(c.len() > 1);
                    self.indices = Some(Indices { head: slot.next.unwrap(), tail: idxs.tail });
                }
                self.chain = Ghost(c.drop_first());
                proof {
                    let c2 = c.drop_first();
                    assert forall|i: int| 0 <= i < c2.len() implies c2[i] == c[i + 1] && c2[i]
                        != c[0] && old(buf)@.contains_key(c2[i]) by {
                        assert(old(buf)@.contains_key(c[i + 1]));
                    }
                    assert forall|i: int| 0 <= i < c2.len() implies buf@.contains_key(
                        #[trigger] c2[i],
                    ) && buf@[c2[i]].next == (if i + 1 < c2.len() {
                        Some(c2[i + 1])
                    } else {
                        None::<usize>
                    }) by {
                        assert(c2[i] == c[i + 1]);
                        assert(buf@[c[i + 1]] == old(buf)@[c[i + 1]]);
                    }
                    assert(self.items(buf@) =~= old(self).items(old(buf)@).drop_first());
                    assert forall|k: usize|
                        old(buf)@.contains_key(k)
                            && !c.contains(k) implies #[trigger] buf@.contains_key(k)
                        && buf@[k] == old(buf)@[k] by {
                        assert(c.contains(c[0]));
                    }
                    assert forall|i: int| 0 <= i < c2.len() implies c.contains(#[trigger] c2[i])
                        || !old(buf)@.contains_key(c2[i]) by {
                        assert(c[i + 1] == c2[i]);
                    }
                }
                Some(slot.value)
            },
            None => None,
        }
    }
}

} // verus!
