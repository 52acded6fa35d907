//! Decoding numbers from a byte source in a byte order fixed at construction.
use crate::codec::{
    decode, from_pattern, from_twos_complement, lemma_pow256_facts, lemma_single_byte, lemma_value_of_bound,
    pow256,
    value_of,
};
use crate::order::{native_order, ByteOrder};
use crate::stream::{is_suffix_of, passed_on, read_exact, ByteSource, Error};
use vstd::prelude::*;

verus! {

/// Whether an operation succeeded, with what it returned left out.
pub open spec fn status<T>(r: Result<T, Error>) -> Result<(), Error> {
    match r {
        Ok(_) => Ok(()),
        Err(e) => Err(e),
    }
}

/// Wraps a byte source and reads numbers from it in one byte order, chosen
/// when the reader is made.
pub struct NumberReader<S> {
    inner: S,
    order: ByteOrder,
}

impl<S: ByteSource> NumberReader<S> {
    /// The wrapped source.
    pub closed spec fn source(&self) -> S {
        self.inner
    }

    /// The byte order of every read.
    pub closed spec fn byte_order(&self) -> ByteOrder {
        self.order
    }

    /// The unsigned number that the next `width` bytes hold.
    pub open spec fn next_unsigned(&self, width: nat) -> nat {
        value_of(self.byte_order(), self.remaining().take(width as int))
    }

    /// The two's-complement number that the next `width` bytes hold.
    pub open spec fn next_signed(&self, width: nat) -> int {
        from_twos_complement(self.next_unsigned(width), width)
    }

    /// What a read of `width` bytes, which ended in `r`, leaves of `self`
    /// in `after`. The order stays. Where the source carries a model: on
    /// success the bytes are consumed; on failure a prefix of them may be,
    /// and the error is the one the source reported or else the early end;
    /// a source that runs short fails; and a dependable source succeeds
    /// exactly when it holds `width` bytes.
    pub open spec fn read_step(&self, after: Self, width: nat, r: Result<(), Error>) -> bool {
        &&& after.byte_order() == self.byte_order()
        &&& self.modeled() ==> {
            &&& after.modeled()
            &&& r is Ok ==> width <= self.remaining().len() && after.remaining()
                == self.remaining().skip(width as int)
            &&& r matches Err(e) ==> {
                &&& is_suffix_of(after.remaining(), self.remaining())
                &&& e == passed_on(after.last_error(), Error::UnexpectedEof)
            }
            &&& self.remaining().len() < width ==> r is Err
            &&& self.dependable() ==> {
                &&& after.dependable()
                &&& (r is Ok <==> width <= self.remaining().len())
                &&& r is Err ==> r == Err::<(), Error>(Error::UnexpectedEof)
            }
        }
    }

    /// Wraps `src`, reading in the byte order of the machine that runs the
    /// code.
    pub fn new(src: S) -> (r: NumberReader<S>)
        ensures
            r.source() == src,
            r.byte_order() == native_order(),
    {
        NumberReader::with_order(ByteOrder::native(), src)
    }

    /// Wraps `src`, reading in byte order `order`.
    pub fn with_order(order: ByteOrder, src: S) -> (r: NumberReader<S>)
        ensures
            r.source() == src,
            r.byte_order() == order,
    {
        NumberReader { inner: src, order }
    }

    /// Gives the wrapped source back.
    pub fn into_inner(self) -> (r: S)
        ensures
            r == self.source(),
    {
        self.inner
    }

    /// The wrapped source.
    pub fn get_ref(&self) -> (r: &S)
        ensures
            *r == self.source(),
    {
        &self.inner
    }

    /// The wrapped source, to change; the byte order stays.
    pub fn get_mut(&mut self) -> (r: &mut S)
        ensures
            *r == old(self).source(),
            final(self).source() == *final(r),
            final(self).byte_order() == old(self).byte_order(),
    {
        &mut self.inner
    }

    /// Reads `width` bytes and gives their unsigned value in the reader's
    /// byte order.
    fn read_pattern(&mut self, width: usize) -> (r: Result<u128, Error>)
        requires
            1 <= width <= 16,
        ensures
            old(self).read_step(*final(self), width as nat, status(r)),
            r matches Ok(u) ==> u < pow256(width as nat),
            old(self).modeled() ==> (r matches Ok(u) ==> u == old(self).next_unsigned(
                width as nat,
            )),
    {
        match read_exact(&mut self.inner, width) {
            Ok(bytes) => {
                proof {
                    lemma_value_of_bound(self.order, bytes@);
                }
                Ok(decode(self.order, bytes.as_slice()))
            },
            Err(e) => Err(e),
        }
    }

    /// Reads an unsigned 8-bit number; a single byte has no order.
    pub fn read_u8(&mut self) -> (r: Result<u8, Error>)
        ensures
            old(self).read_step(*final(self), 1, status(r)),
            old(self).modeled() ==> (r matches Ok(v) ==> v == old(self).next_unsigned(1)),
            old(self).modeled() ==> (r matches Ok(v) ==> v == old(self).remaining()[0]),
    {
        match self.read_pattern(1) {
            Ok(u) => {
                proof {
                    lemma_pow256_facts(1);
                    if old(self).modeled() {
                        let s = old(self).remaining();
                        assert(s.take(1) =~= seq![s[0]]);
                        lemma_single_byte(old(self).byte_order(), s[0]);
                    }
                }
                Ok(u as u8)
            },
            Err(e) => Err(e),
        }
    }

    /// Reads a signed 8-bit number; a single byte has no order.
    pub fn read_i8(&mut self) -> (r: Result<i8, Error>)
        ensures
            old(self).read_step(*final(self), 1, status(r)),
            old(self).modeled() ==> (r matches Ok(v) ==> v == old(self).next_signed(1)),
    {
        match self.read_pattern(1) {
            Ok(u) => {
                proof {
                    lemma_pow256_facts(1);
                }
                Ok(from_pattern(u, 1) as i8)
            },
            Err(e) => Err(e),
        }
    }

    /// Reads an unsigned 16-bit number.
    pub fn read_u16(&mut self) -> (r: Result<u16, Error>)
        ensures
            old(self).read_step(*final(self), 2, status(r)),
            old(self).modeled() ==> (r matches Ok(v) ==> v == old(self).next_unsigned(2)),
    {
        match self.read_pattern(2) {
            Ok(u) => {
                proof {
                    lemma_pow256_facts(2);
                }
                Ok(u as u16)
            },
            Err(e) => Err(e),
        }
    }

    /// Reads a signed 16-bit number.
    pub fn read_i16(&mut self) -> (r: Result<i16, Error>)
        ensures
            old(self).read_step(*final(self), 2, status(r)),
            old(self).modeled() ==> (r matches Ok(v) ==> v == old(self).next_signed(2)),
    {
        match self.read_pattern(2) {
            Ok(u) => {
                proof {
                    lemma_pow256_facts(2);
                }
                Ok(from_pattern(u, 2) as i16)
            },
            Err(e) => Err(e),
        }
    }

    /// Reads an unsigned 32-bit number.
    pub fn read_u32(&mut self) -> (r: Result<u32, Error>)
        ensures
            old(self).read_step(*final(self), 4, status(r)),
            old(self).modeled() ==> (r matches Ok(v) ==> v == old(self).next_unsigned(4)),
    {
        match self.read_pattern(4) {
            Ok(u) => {
                proof {
                    lemma_pow256_facts(4);
                }
                Ok(u as u32)
            },
            Err(e) => Err(e),
        }
    }

    /// Reads a signed 32-bit number.
    pub fn read_i32(&mut self) -> (r: Result<i32, Error>)
        ensures
            old(self).read_step(*final(self), 4, status(r)),
            old(self).modeled() ==> (r matches Ok(v) ==> v == old(self).next_signed(4)),
    {
        match self.read_pattern(4) {
            Ok(u) => {
                proof {
                    lemma_pow256_facts(4);
                }
                Ok(from_pattern(u, 4) as i32)
            },
            Err(e) => Err(e),
        }
    }

    /// Reads an unsigned 64-bit number.
    pub fn read_u64(&mut self) -> (r: Result<u64, Error>)
        ensures
            old(self).read_step(*final(self), 8, status(r)),
            old(self).modeled() ==> (r matches Ok(v) ==> v == old(self).next_unsigned(8)),
    {
        match self.read_pattern(8) {
            Ok(u) => {
                proof {
                    lemma_pow256_facts(8);
                }
                Ok(u as u64)
            },
            Err(e) => Err(e),
        }
    }

    /// Reads a signed 64-bit number.
    pub fn read_i64(&mut self) -> (r: Result<i64, Error>)
        ensures
            old(self).read_step(*final(self), 8, status(r)),
            old(self).modeled() ==> (r matches Ok(v) ==> v == old(self).next_signed(8)),
    {
        match self.read_pattern(8) {
            Ok(u) => {
                proof {
                    lemma_pow256_facts(8);
                }
                Ok(from_pattern(u, 8) as i64)
            },
            Err(e) => Err(e),
        }
    }

    /// Reads an unsigned 128-bit number.
    pub fn read_u128(&mut self) -> (r: Result<u128, Error>)
        ensures
            old(self).read_step(*final(self), 16, status(r)),
            old(self).modeled() ==> (r matches Ok(v) ==> v == old(self).next_unsigned(16)),
    {
        self.read_pattern(16)
    }

    /// Reads a signed 128-bit number.
    pub fn read_i128(&mut self) -> (r: Result<i128, Error>)
        ensures
            old(self).read_step(*final(self), 16, status(r)),
            old(self).modeled() ==> (r matches Ok(v) ==> v == old(self).next_signed(16)),
    {
        match self.read_pattern(16) {
            Ok(u) => {
                proof {
                    lemma_pow256_facts(16);
                }
                Ok(from_pattern(u, 16))
            },
            Err(e) => Err(e),
        }
    }
}

/// A reader is itself a byte source: raw reads go straight to the wrapped
/// source.
impl<S: ByteSource> ByteSource for NumberReader<S> {
    open spec fn modeled(&self) -> bool {
        self.source().modeled()
    }

    open spec fn remaining(&self) -> Seq<u8> {
        self.source().remaining()
    }

    open spec fn dependable(&self) -> bool {
        self.source().dependable()
    }

    open spec fn last_error(&self) -> Option<Error> {
        self.source().last_error()
    }

    fn read(&mut self, buf: &mut [u8]) -> (r: Result<usize, Error>) {
        self.inner.read(buf)
    }
}

} // verus!
