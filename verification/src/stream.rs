//! In-memory byte streams: the minimal read/write capability the codecs
//! consume. A `ByteReader` hands out the next `n` bytes of a buffer or fails
//! without advancing; a `ByteWriter` appends bytes and never fails.

use crate::err::CodecError;
use vstd::prelude::*;

verus! {

/// A sequential reader over a byte buffer.
///
/// `pos` is the cursor: bytes before it have been consumed. Reads either
/// return exactly the requested count and advance the cursor, or fail with
/// [`CodecError::Io`] and leave the cursor untouched.
pub struct ByteReader {
    pub data: Vec<u8>,
    pub pos: usize,
}

impl ByteReader {
    /// The cursor never points past the end of the buffer.
    pub open spec fn wf(self) -> bool {
        self.pos <= self.data@.len()
    }

    /// The bytes not yet consumed.
    pub open spec fn remaining(self) -> Seq<u8> {
        self.data@.skip(self.pos as int)
    }

    /// A fresh reader positioned at the start of `data`.
    pub fn new(data: Vec<u8>) -> (r: ByteReader)
        ensures
            r.data@ == data@,
            r.pos == 0,
            r.wf(),
    {
        ByteReader { data, pos: 0 }
    }

    /// The current cursor position.
    pub fn position(&self) -> (r: usize)
        ensures
            r == self.pos,
    {
        self.pos
    }

    /// How many bytes are still unread.
    pub fn available(&self) -> (r: usize)
        requires
            self.wf(),
        ensures
            r == self.remaining().len(),
    {
        self.data.len() - self.pos
    }

    /// Read exactly `n` bytes, advancing the cursor; fail without moving it
    /// if fewer than `n` bytes remain.
    pub fn read_bytes(&mut self, n: usize) -> (r: Result<Vec<u8>, CodecError>)
        requires
            old(self).wf(),
        ensures
            final(self).wf(),
            final(self).data@ == old(self).data@,
            old(self).pos + n <= old(self).data@.len() ==> {
                &&& r matches Ok(b) && b@ == old(self).remaining().take(n as int)
                &&& final(self).pos == old(self).pos + n
            },
            old(self).pos + n > old(self).data@.len() ==> {
                &&& r == Err::<Vec<u8>, CodecError>(CodecError::Io)
                &&& final(self).pos == old(self).pos
            },
    {
        if n > self.data.len() - self.pos {
            return Err(CodecError::Io);
        }
        let total = self.data.len();
        let mut out: Vec<u8> = Vec::with_capacity(n);
        let mut i: usize = 0;
        while i < n
            invariant
                self == old(self),
                self.wf(),
                i <= n,
                self.data@.len() == total,
                self.pos + n <= self.data@.len(),
                out@ == self.data@.subrange(self.pos as int, self.pos + i),
            decreases n - i,
        {
            out.push(self.data[self.pos + i]);
            i = i + 1;
        }
        proof {
            assert(out@ =~= old(self).remaining().take(n as int));
        }
        self.pos = self.pos + n;
        Ok(out)
    }
}

/// An append-only byte sink. Writing into an in-memory buffer cannot fail.
pub struct ByteWriter {
    pub data: Vec<u8>,
}

impl ByteWriter {
    /// A fresh, empty writer.
    pub fn new() -> (r: ByteWriter)
        ensures
            r.data@ == Seq::<u8>::empty(),
    {
        ByteWriter { data: Vec::new() }
    }

    /// Append one byte.
    pub fn write_byte(&mut self, b: u8)
        ensures
            final(self).data@ == old(self).data@.push(b),
    {
        self.data.push(b);
    }

    /// Append all of `bs`, in order.
    pub fn write_bytes(&mut self, bs: &Vec<u8>)
        ensures
            final(self).data@ == old(self).data@ + bs@,
    {
        let mut i: usize = 0;
        while i < bs.len()
            invariant
                i <= bs@.len(),
                self.data@ == old(self).data@ + bs@.take(i as int),
            decreases bs@.len() - i,
        {
            self.data.push(bs[i]);
            proof {
                assert(old(self).data@ + bs@.take(i as int) + seq![bs@[i as int]] =~= old(
                    self,
                ).data@ + bs@.take(i + 1));
            }
            i = i + 1;
        }
        proof {
            assert(bs@.take(bs@.len() as int) =~= bs@);
        }
    }

    /// Hand the accumulated bytes out.
    pub fn into_vec(self) -> (r: Vec<u8>)
        ensures
            r@ == self.data@,
    {
        self.data
    }
}

} // verus!
