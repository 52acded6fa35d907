//! Byte sources and sinks held in memory.
use crate::stream::{ByteSink, ByteSource, Error};
use vstd::prelude::*;

verus! {

/// A source that hands out the bytes of a vector, front to back.
pub struct ByteCursor {
    data: Vec<u8>,
    pos: usize,
}

impl ByteCursor {
    #[verifier::type_invariant]
    spec fn well_formed(&self) -> bool {
        self.pos <= self.data@.len()
    }

    /// All the bytes the cursor was made with.
    pub closed spec fn contents(&self) -> Seq<u8> {
        self.data@
    }

    /// How many bytes have been handed out.
    pub closed spec fn consumed(&self) -> nat {
        self.pos as nat
    }

    /// A cursor at the start of `data`.
    pub fn new(data: Vec<u8>) -> (r: ByteCursor)
        ensures
            r.contents() == data@,
            r.consumed() == 0,
            r.remaining() == data@,
    {
        ByteCursor { data, pos: 0 }
    }

    /// How many bytes have been handed out.
    pub fn position(&self) -> (r: usize)
        ensures
            r == self.consumed(),
    {
        self.pos
    }
}

impl ByteSource for ByteCursor {
    open spec fn modeled(&self) -> bool {
        true
    }

    open spec fn remaining(&self) -> Seq<u8> {
        self.contents().skip(self.consumed() as int)
    }

    open spec fn dependable(&self) -> bool {
        true
    }

    fn read(&mut self, buf: &mut [u8]) -> (r: Result<usize, Error>) {
        proof {
            use_type_invariant(&*self);
        }
        let left = self.data.len() - self.pos;
        let n = if buf.len() < left {
            buf.len()
        } else {
            left
        };
        let ghost start = self.data@.skip(self.pos as int);
        let mut i: usize = 0;
        while i < n
            invariant
                n <= buf@.len(),
                self.pos + n <= self.data.len(),
                i <= n,
                buf@.len() == old(buf)@.len(),
                start == self.data@.skip(self.pos as int),
                forall|j: int| 0 <= j < i ==> buf@[j] == start[j],
            decreases n - i,
        {
            buf[i] = self.data[self.pos + i];
            i = i + 1;
        }
        assert(buf@.take(n as int) =~= start.take(n as int));
        self.pos = self.pos + n;
        assert(self.data@.skip(self.pos as int) =~= start.skip(n as int));
        Ok(n)
    }
}

/// A vector takes every byte written to it, without bound.
impl ByteSink for Vec<u8> {
    open spec fn modeled(&self) -> bool {
        true
    }

    open spec fn taken(&self) -> Seq<u8> {
        self@
    }

    open spec fn room(&self) -> Option<nat> {
        None
    }

    open spec fn dependable(&self) -> bool {
        true
    }

    fn write(&mut self, buf: &[u8]) -> (r: Result<usize, Error>) {
        let mut i: usize = 0;
        while i < buf.len()
            invariant
                i <= buf@.len(),
                self@ == old(self)@ + buf@.take(i as int),
            decreases buf@.len() - i,
        {
            self.push(buf[i]);
            assert(buf@.take(i + 1) =~= buf@.take(i as int).push(buf@[i as int]));
            i = i + 1;
        }
        Ok(buf.len())
    }

    fn flush(&mut self) -> (r: Result<(), Error>) {
        Ok(())
    }
}

/// A sink that keeps what it takes in memory and takes at most a fixed
/// number of bytes in all; once full it takes nothing more.
pub struct BoundedSink {
    data: Vec<u8>,
    spare: usize,
}

impl BoundedSink {
    /// The bytes taken so far.
    pub closed spec fn held(&self) -> Seq<u8> {
        self.data@
    }

    /// How many more bytes the sink takes.
    pub closed spec fn spare(&self) -> nat {
        self.spare as nat
    }

    /// An empty sink that takes at most `limit` bytes.
    pub fn new(limit: usize) -> (r: BoundedSink)
        ensures
            r.taken() == Seq::<u8>::empty(),
            r.room() == Some(limit as nat),
    {
        BoundedSink { data: Vec::new(), spare: limit }
    }

    /// The bytes taken so far.
    pub fn as_slice(&self) -> (r: &[u8])
        ensures
            r@ == self.taken(),
    {
        self.data.as_slice()
    }

    /// Gives the bytes taken so far back.
    pub fn into_inner(self) -> (r: Vec<u8>)
        ensures
            r@ == self.taken(),
    {
        self.data
    }
}

impl ByteSink for BoundedSink {
    open spec fn modeled(&self) -> bool {
        true
    }

    open spec fn taken(&self) -> Seq<u8> {
        self.held()
    }

    open spec fn room(&self) -> Option<nat> {
        Some(self.spare())
    }

    open spec fn dependable(&self) -> bool {
        true
    }

    fn write(&mut self, buf: &[u8]) -> (r: Result<usize, Error>) {
        let n = if buf.len() < self.spare {
            buf.len()
        } else {
            self.spare
        };
        let ghost start = self.data@;
        let ghost spare = self.spare;
        let mut i: usize = 0;
        while i < n
            invariant
                n <= buf@.len(),
                n <= spare == self.spare,
                i <= n,
                self.data@ == start + buf@.take(i as int),
            decreases n - i,
        {
            self.data.push(buf[i]);
            assert(buf@.take(i + 1) =~= buf@.take(i as int).push(buf@[i as int]));
            i = i + 1;
        }
        self.spare = self.spare - n;
        Ok(n)
    }

    fn flush(&mut self) -> (r: Result<(), Error>) {
        Ok(())
    }
}

} // verus!
