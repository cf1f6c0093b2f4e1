//! The slice of a DATA payload that is handed to the codec.

use crate::frame::Payload;
use crate::proto::streams::store::Key;
use vstd::prelude::*;
use vstd::slice::slice_subrange;

verus! {

/// A DATA payload of which the codec may write at most `limit` bytes. It
/// remembers the stream that it comes from and whether the whole payload
/// ends that stream, so that what the codec leaves unwritten can be queued
/// again.
#[derive(Debug)]
pub struct Prioritized {
    pub inner: Payload,
    pub limit: usize,
    pub end_of_stream: bool,
    pub stream: Key,
}

impl View for Prioritized {
    type V = Seq<u8>;

    /// The bytes that the codec may still write.
    open spec fn view(&self) -> Seq<u8> {
        self.inner@.take(self.spec_remaining() as int)
    }
}

impl Prioritized {
    pub open spec fn spec_remaining(&self) -> nat {
        if self.inner@.len() <= self.limit {
            self.inner@.len()
        } else {
            self.limit as nat
        }
    }

    /// Number of bytes that the codec may still write.
    pub fn remaining(&self) -> (n: usize)
        ensures
            n == self.spec_remaining(),
    {
        let left = self.inner.remaining();
        if left <= self.limit {
            left
        } else {
            self.limit
        }
    }

    /// The bytes that the codec may still write.
    pub fn bytes(&self) -> (s: &[u8])
        ensures
            s@ == self@,
    {
        let all = self.inner.bytes();
        slice_subrange(all, 0, self.remaining())
    }

    /// Marks the next `cnt` bytes as written.
    pub fn advance(&mut self, cnt: usize)
        requires
            cnt <= old(self).spec_remaining(),
        ensures
            final(self).inner@ == old(self).inner@.skip(cnt as int),
            final(self).limit == old(self).limit - cnt,
            final(self).end_of_stream == old(self).end_of_stream,
            final(self).stream == old(self).stream,
            final(self)@ == old(self)@.skip(cnt as int),
    {
        self.inner.advance(cnt);
        self.limit = self.limit - cnt;
        assert(self@ =~= old(self)@.skip(cnt as int));
    }

    /// Gives the payload back, with what was not written.
    pub fn into_inner(self) -> (p: Payload)
        ensures
            p == self.inner,
    {
        self.inner
    }
}

} // verus!
