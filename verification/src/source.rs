//! The sequential byte source that every reader draws from: an owned
//! buffer together with a cursor. Each read consumes bytes in order and
//! never looks back, so the source behaves as a one-way stream.

use vstd::prelude::*;

verus! {

/// A sequential byte source: the bytes of one or more incoming frames
/// and a cursor that only ever moves forward.
pub struct ByteSource {
    data: Vec<u8>,
    pos: usize,
}

impl ByteSource {
    /// The full underlying byte sequence, consumed and unconsumed alike.
    pub closed spec fn bytes(&self) -> Seq<u8> {
        self.data@
    }

    /// The cursor: how many bytes have been consumed so far.
    pub closed spec fn position(&self) -> int {
        self.pos as int
    }

    /// The cursor never runs past the end of the buffer.
    #[verifier::type_invariant]
    pub open spec fn wf(&self) -> bool {
        0 <= self.position() <= self.bytes().len()
    }

    /// Wrap an owned buffer as a source, with the cursor at the start.
    pub fn new(data: Vec<u8>) -> (s: Self)
        ensures
            s.bytes() == data@,
            s.position() == 0,
    {
        ByteSource { data, pos: 0 }
    }

    /// Consume and return the next byte, or `None` once the source is
    /// exhausted; an exhausted source stays where it is.
    pub fn next(&mut self) -> (r: Option<u8>)
        ensures
            final(self).bytes() == old(self).bytes(),
            old(self).position() < old(self).bytes().len() ==> r == Some(
                old(self).bytes()[old(self).position()],
            ) && final(self).position() == old(self).position() + 1,
            old(self).position() >= old(self).bytes().len() ==> r == None::<u8>
                && final(self).position() == old(self).position(),
    {
        proof {
            use_type_invariant(&*self);
        }
        if self.pos < self.data.len() {
            let b = self.data[self.pos];
            self.pos = self.pos + 1;
            Some(b)
        } else {
            None
        }
    }

    /// How many bytes are still unconsumed.
    pub fn remaining(&self) -> (r: usize)
        ensures
            r == self.bytes().len() - self.position(),
    {
        proof {
            use_type_invariant(&*self);
        }
        self.data.len() - self.pos
    }
}

} // verus!
