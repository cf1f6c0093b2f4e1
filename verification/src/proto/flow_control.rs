//! Flow-control windows.

use crate::error::{ConnectionError, Reason};
use vstd::prelude::*;

verus! {

/// A flow-control quantity. Window sizes may be negative; amounts granted,
/// claimed or sent never are.
pub type WindowSize = i32;

/// The largest window the protocol allows.
pub const MAX_WINDOW_SIZE: WindowSize = 0x7fff_ffff;

/// One flow-control window, of a stream or of the connection, in one
/// direction.
///
/// `window_size` is what the peer allows to be in flight; a change of the
/// initial window size can push it below zero. `available` is the part of
/// the window that has been granted for sending.
#[derive(Debug, Clone, Copy, PartialEq, Eq, Structural)]
pub struct FlowControl {
    pub window_size: WindowSize,
    pub available: WindowSize,
}

/// The larger of a window size and zero.
pub open spec fn spec_floor_zero(v: int) -> int {
    if v < 0 {
        0
    } else {
        v
    }
}

impl FlowControl {
    /// `available` lies between zero and the window, or is zero where the
    /// window is negative.
    pub open spec fn wf(self) -> bool {
        0 <= self.available <= spec_floor_zero(self.window_size as int)
    }

    pub open spec fn spec_has_unavailable(&self) -> bool {
        self.window_size > self.available
    }

    /// The outcome of raising the window by `delta`: the new window, or
    /// nothing where it would pass the protocol's maximum.
    pub open spec fn spec_inc_window(self, delta: int) -> Option<FlowControl> {
        if self.window_size + delta > MAX_WINDOW_SIZE {
            None
        } else {
            Some(FlowControl { window_size: (self.window_size + delta) as WindowSize, ..self })
        }
    }

    /// The window after lowering it by `delta`; what was granted beyond the
    /// lowered window is withdrawn.
    pub open spec fn spec_dec_window(self, delta: int) -> FlowControl {
        let window = self.window_size - delta;
        FlowControl {
            window_size: window as WindowSize,
            available: if self.available <= spec_floor_zero(window) {
                self.available
            } else {
                spec_floor_zero(window) as WindowSize
            },
        }
    }

    pub fn new() -> (flow: FlowControl)
        ensures
            flow.window_size == 0,
            flow.available == 0,
            flow.wf(),
    {
        FlowControl { window_size: 0, available: 0 }
    }

    pub fn window_size(&self) -> (sz: WindowSize)
        ensures
            sz == self.window_size,
    {
        self.window_size
    }

    pub fn available(&self) -> (sz: WindowSize)
        ensures
            sz == self.available,
    {
        self.available
    }

    /// True where the window has room that is not yet granted.
    #[verifier::when_used_as_spec(spec_has_unavailable)]
    pub fn has_unavailable(&self) -> (r: bool)
        ensures
            r == self.spec_has_unavailable(),
    {
        self.window_size > self.available
    }

    /// Raises the window by `delta`. Fails, leaving the window as it was,
    /// exactly where the raised window would pass `MAX_WINDOW_SIZE`.
    pub fn inc_window(&mut self, delta: WindowSize) -> (res: Result<(), ConnectionError>)
        requires
            old(self).wf(),
            delta >= 0,
        ensures
            final(self).wf(),
            match old(self).spec_inc_window(delta as int) {
                Some(flow) => res is Ok && *final(self) == flow,
                None => res == Err::<(), ConnectionError>(
                    ConnectionError::Proto(Reason::FlowControlError),
                ) && *final(self) == *old(self),
            },
    {
        if self.window_size > MAX_WINDOW_SIZE - delta {
            return Err(ConnectionError::Proto(Reason::FlowControlError));
        }
        self.window_size = self.window_size + delta;
        Ok(())
    }

    /// Lowers the window by `delta`, possibly below zero, and withdraws what
    /// was granted beyond the lowered window.
    pub fn dec_window(&mut self, delta: WindowSize)
        requires
            old(self).wf(),
            delta >= 0,
            old(self).window_size - delta >= i32::MIN,
        ensures
            final(self).wf(),
            *final(self) == old(self).spec_dec_window(delta as int),
    {
        self.window_size = self.window_size - delta;
        let floor: WindowSize = if self.window_size < 0 {
            0
        } else {
            self.window_size
        };
        if self.available > floor {
            self.available = floor;
        }
    }

    /// Grants `capacity` more of the window.
    pub fn assign_capacity(&mut self, capacity: WindowSize)
        requires
            old(self).wf(),
            capacity >= 0,
            old(self).available + capacity <= spec_floor_zero(old(self).window_size as int),
        ensures
            final(self).wf(),
            final(self).window_size == old(self).window_size,
            final(self).available == old(self).available + capacity,
    {
        self.available = self.available + capacity;
    }

    /// Takes `capacity` back out of what was granted.
    pub fn claim_capacity(&mut self, capacity: WindowSize)
        requires
            old(self).wf(),
            0 <= capacity <= old(self).available,
        ensures
            final(self).wf(),
            final(self).window_size == old(self).window_size,
            final(self).available == old(self).available - capacity,
    {
        self.available = self.available - capacity;
    }

    /// Accounts for `sz` bytes put on the wire: they leave both the window
    /// and what was granted of it.
    pub fn send_data(&mut self, sz: WindowSize)
        requires
            old(self).wf(),
            0 <= sz <= old(self).available,
        ensures
            final(self).wf(),
            final(self).window_size == old(self).window_size - sz,
            final(self).available == old(self).available - sz,
    {
        self.window_size = self.window_size - sz;
        self.available = self.available - sz;
    }
}

/// The sum of a sequence of window increments.
pub open spec fn spec_sum(deltas: Seq<WindowSize>) -> int
    decreases deltas.len(),
{
    if deltas.len() == 0 {
        0
    } else {
        deltas[0] + spec_sum(deltas.drop_first())
    }
}

/// Any one increment can be split off the sum.
proof fn lemma_sum_remove(deltas: Seq<WindowSize>, i: int)
    requires
        0 <= i < deltas.len(),
    ensures
        spec_sum(deltas) == deltas[i] + spec_sum(deltas.remove(i)),
    decreases deltas.len(),
{
    if i == 0 {
        assert(deltas.remove(0) =~= deltas.drop_first());
    } else {
        lemma_sum_remove(deltas.drop_first(), i - 1);
        assert(deltas.remove(i).drop_first() =~= deltas.drop_first().remove(i - 1));
    }
}

/// Two sequences that hold the same increments, each as often as the
/// other, have the same sum.
pub proof fn lemma_sum_of_permutation(a: Seq<WindowSize>, b: Seq<WindowSize>)
    requires
        a.to_multiset() == b.to_multiset(),
    ensures
        spec_sum(a) == spec_sum(b),
    decreases a.len(),
{
    vstd::seq_lib::to_multiset_len(a);
    vstd::seq_lib::to_multiset_len(b);
    if a.len() > 0 {
        let x = a[0];
        vstd::seq_lib::to_multiset_contains(a, x);
        vstd::seq_lib::to_multiset_contains(b, x);
        assert(a.contains(x));
        let j = choose|j: int| 0 <= j < b.len() && b[j] == x;
        vstd::seq_lib::to_multiset_remove(a, 0);
        vstd::seq_lib::to_multiset_remove(b, j);
        assert(a.remove(0) =~= a.drop_first());
        lemma_sum_of_permutation(a.drop_first(), b.remove(j));
        lemma_sum_remove(b, j);
    }
}

impl FlowControl {
    /// The window after the increments were applied one after the other,
    /// or nothing if one of them did not fit.
    pub open spec fn spec_inc_all(self, deltas: Seq<WindowSize>) -> Option<FlowControl>
        decreases deltas.len(),
    {
        if deltas.len() == 0 {
            Some(self)
        } else {
            match self.spec_inc_window(deltas[0] as int) {
                Some(flow) => flow.spec_inc_all(deltas.drop_first()),
                None => None,
            }
        }
    }

    /// At the largest window, every increment fails.
    pub proof fn lemma_inc_at_max(self, delta: WindowSize)
        requires
            self.window_size == MAX_WINDOW_SIZE,
            delta > 0,
        ensures
            self.spec_inc_window(delta as int) is None,
    {
    }

    /// Increments whose sum fits into the window all succeed, and raise
    /// the window by their sum.
    pub proof fn lemma_inc_all(self, deltas: Seq<WindowSize>)
        requires
            forall|i: int| 0 <= i < deltas.len() ==> deltas[i] >= 0,
            self.window_size + spec_sum(deltas) <= MAX_WINDOW_SIZE,
        ensures
            self.spec_inc_all(deltas) == Some(
                FlowControl {
                    window_size: (self.window_size + spec_sum(deltas)) as WindowSize,
                    ..self
                },
            ),
        decreases deltas.len(),
    {
        if deltas.len() > 0 {
            let rest = deltas.drop_first();
            assert forall|i: int| 0 <= i < rest.len() implies rest[i] >= 0 by {
                assert(rest[i] == deltas[i + 1]);
            }
            lemma_sum_nonneg(rest);
            let flow = self.spec_inc_window(deltas[0] as int).unwrap();
            flow.lemma_inc_all(rest);
        }
    }

    /// The order in which window updates are applied does not matter:
    /// where the sum of the increments fits into the window, any order of
    /// them leads to the same window.
    pub proof fn lemma_inc_order(self, a: Seq<WindowSize>, b: Seq<WindowSize>)
        requires
            a.to_multiset() == b.to_multiset(),
            forall|i: int| 0 <= i < a.len() ==> a[i] >= 0,
            self.window_size + spec_sum(a) <= MAX_WINDOW_SIZE,
        ensures
            self.spec_inc_all(a) is Some,
            self.spec_inc_all(b) == self.spec_inc_all(a),
    {
        lemma_sum_of_permutation(a, b);
        assert forall|i: int| 0 <= i < b.len() implies b[i] >= 0 by {
            vstd::seq_lib::to_multiset_contains(b, b[i]);
            vstd::seq_lib::to_multiset_contains(a, b[i]);
            assert(b.contains(b[i]));
            let j = choose|j: int| 0 <= j < a.len() && a[j] == b[i];
        }
        self.lemma_inc_all(a);
        self.lemma_inc_all(b);
    }
}

/// A sum of increments that are not negative is not negative.
proof fn lemma_sum_nonneg(deltas: Seq<WindowSize>)
    requires
        forall|i: int| 0 <= i < deltas.len() ==> deltas[i] >= 0,
    ensures
        spec_sum(deltas) >= 0,
    decreases deltas.len(),
{
    if deltas.len() > 0 {
        let rest = deltas.drop_first();
        assert forall|i: int| 0 <= i < rest.len() implies rest[i] >= 0 by {
            assert(rest[i] == deltas[i + 1]);
        }
        lemma_sum_nonneg(rest);
    }
}

} // verus!
