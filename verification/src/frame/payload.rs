//! The bytes of a DATA frame, read through a cursor.

use vstd::prelude::*;
use vstd::slice::slice_subrange;

verus! {

/// A byte buffer with a read position. Its view is what is left to read.
#[derive(Debug)]
pub struct Payload {
    bytes: Vec<u8>,
    pos: usize,
}

impl View for Payload {
    type V = Seq<u8>;

    closed spec fn view(&self) -> Seq<u8> {
        self.bytes@.skip(self.pos as int)
    }
}

impl Payload {
    #[verifier::type_invariant]
    spec fn inv(self) -> bool {
        self.pos <= self.bytes@.len()
    }

    /// A payload holding `bytes`, none of them read yet.
    pub fn new(bytes: Vec<u8>) -> (p: Payload)
        ensures
            p@ == bytes@,
    {
        let p = Payload { bytes, pos: 0 };
        assert(p.bytes@.skip(0) =~= p.bytes@);
        p
    }

    /// Number of bytes left to read.
    pub fn remaining(&self) -> (n: usize)
        ensures
            n == self@.len(),
    {
        proof {
            use_type_invariant(self);
        }
        self.bytes.len() - self.pos
    }

    pub fn has_remaining(&self) -> (r: bool)
        ensures
            r == (self@.len() > 0),
    {
        self.remaining() > 0
    }

    /// The bytes left to read.
    pub fn bytes(&self) -> (s: &[u8])
        ensures
            s@ == self@,
    {
        proof {
            use_type_invariant(self);
        }
        let s = slice_subrange(self.bytes.as_slice(), self.pos, self.bytes.len());
        assert(s@ =~= self.bytes@.skip(self.pos as int));
        s
    }

    /// Marks the next `cnt` bytes as read.
    pub fn advance(&mut self, cnt: usize)
        requires
            cnt <= old(self)@.len(),
        ensures
            final(self)@ == old(self)@.skip(cnt as int),
    {
        proof {
            use_type_invariant(&*self);
        }
        let len = self.bytes.len();
        assert(self@.len() == len - self.pos);
        self.pos = self.pos + cnt;
        assert(self.bytes@.skip(self.pos as int) =~= old(self).bytes@.skip(
            old(self).pos as int,
        ).skip(cnt as int));
    }
}

} // verus!
