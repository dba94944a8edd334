//! The byte cursor that every decoder in this crate shares: an owned,
//! randomly addressable byte buffer with a single current position.

use vstd::prelude::*;

verus! {

/// A seekable byte source. It owns its bytes and keeps one current
/// position; decoders advance the position as they consume fields.
pub struct ByteSource {
    data: Vec<u8>,
    pos: usize,
}

impl ByteSource {
    /// All bytes of the source, independent of the current position.
    pub closed spec fn bytes(self) -> Seq<u8> {
        self.data@
    }

    /// The current position, as a mathematical integer.
    pub closed spec fn pos(self) -> int {
        self.pos as int
    }

    /// The position never runs past the end of the data, and every
    /// byte of the data sits at a 64-bit-addressable offset.
    pub open spec fn wf(self) -> bool {
        0 <= self.pos() <= self.bytes().len() <= u64::MAX
    }

    /// Wraps owned bytes as a source positioned at the first byte.
    pub fn new(data: Vec<u8>) -> (r: ByteSource)
        ensures
            r.wf(),
            r.bytes() == data@,
            r.pos() == 0,
    {
        let _n = data.len();
        assert(data@.len() <= u64::MAX);
        ByteSource { data, pos: 0 }
    }

    /// Number of bytes in the source.
    pub fn len(&self) -> (r: usize)
        ensures
            r == self.bytes().len(),
    {
        self.data.len()
    }

    /// The current position.
    pub fn position(&self) -> (r: u64)
        requires
            self.wf(),
        ensures
            r == self.pos(),
    {
        self.pos as u64
    }

    /// Number of bytes between the current position and the end.
    pub fn remaining(&self) -> (r: u64)
        requires
            self.wf(),
        ensures
            r == self.bytes().len() - self.pos(),
    {
        (self.data.len() - self.pos) as u64
    }

    /// Moves the position to `p`, clamped to the end of the data.
    pub fn seek(&mut self, p: u64)
        requires
            old(self).wf(),
        ensures
            final(self).wf(),
            final(self).bytes() == old(self).bytes(),
            final(self).pos() == if p <= old(self).bytes().len() {
                p as int
            } else {
                old(self).bytes().len() as int
            },
    {
        if p >= self.data.len() as u64 {
            self.pos = self.data.len();
        } else {
            self.pos = p as usize;
        }
    }

    /// Moves the position forward by `n` bytes, clamped to the end of the
    /// data.
    pub fn skip(&mut self, n: u64)
        requires
            old(self).wf(),
        ensures
            final(self).wf(),
            final(self).bytes() == old(self).bytes(),
            final(self).pos() == if old(self).pos() + n <= old(self).bytes().len() {
                old(self).pos() + n
            } else {
                old(self).bytes().len() as int
            },
    {
        let rem = (self.data.len() - self.pos) as u64;
        if n >= rem {
            self.pos = self.data.len();
        } else {
            self.pos = self.pos + (n as usize);
        }
    }

    /// Reads the byte at the current position and advances past it.
    /// Returns `None` at the end of the data, leaving the position there.
    pub fn read_byte(&mut self) -> (r: Option<u8>)
        requires
            old(self).wf(),
        ensures
            final(self).wf(),
            final(self).bytes() == old(self).bytes(),
            old(self).pos() < old(self).bytes().len() ==> r == Some(
                old(self).bytes()[old(self).pos()],
            ) && final(self).pos() == old(self).pos() + 1,
            old(self).pos() == old(self).bytes().len() ==> r is None && final(self).pos() == old(
                self,
            ).pos(),
    {
        if self.pos < self.data.len() {
            let b = self.data[self.pos];
            self.pos = self.pos + 1;
            Some(b)
        } else {
            None
        }
    }

    /// Reads exactly `n` bytes starting at the current position and
    /// advances past them. Returns `None` without moving when fewer than
    /// `n` bytes remain.
    pub fn read_bytes(&mut self, n: usize) -> (r: Option<Vec<u8>>)
        requires
            old(self).wf(),
        ensures
            final(self).wf(),
            final(self).bytes() == old(self).bytes(),
            old(self).pos() + n <= old(self).bytes().len() ==> (r matches Some(v) && v@ == old(
                self,
            ).bytes().subrange(old(self).pos(), old(self).pos() + n) && final(self).pos() == old(
                self,
            ).pos() + n),
            old(self).pos() + n > old(self).bytes().len() ==> r is None && final(self).pos()
                == old(self).pos(),
    {
        if n <= self.data.len() - self.pos {
            let mut out: Vec<u8> = Vec::new();
            let mut i: usize = 0;
            while i < n
                invariant
                    0 <= i <= n,
                    self.pos + n <= self.data.len(),
                    out@ == self.data@.subrange(self.pos as int, self.pos + i),
                decreases n - i,
            {
                out.push(self.data[self.pos + i]);
                assert(out@ == self.data@.subrange(self.pos as int, self.pos + i + 1));
                i = i + 1;
            }
            self.pos = self.pos + n;
            Some(out)
        } else {
            None
        }
    }
}

} // verus!
