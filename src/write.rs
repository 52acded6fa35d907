//! Encoding numbers into a byte sink in a byte order fixed at construction.
use crate::codec::{
    bytes_of, encode, lemma_pow256_facts, lemma_single_byte, pow256, to_pattern, twos_complement,
};
use crate::order::{native_order, ByteOrder};
use crate::stream::{fits, passed_on, room_after, write_all, ByteSink, Error};
use vstd::prelude::*;

verus! {

/// Wraps a byte sink and writes numbers to it in one byte order, chosen
/// when the writer is made.
pub struct NumberWriter<W> {
    inner: W,
    order: ByteOrder,
}

impl<W: ByteSink> NumberWriter<W> {
    /// The wrapped sink.
    pub closed spec fn sink(&self) -> W {
        self.inner
    }

    /// The byte order of every write.
    pub closed spec fn byte_order(&self) -> ByteOrder {
        self.order
    }

    /// The bytes that hold the unsigned number `v` in `width` bytes, in the
    /// writer's byte order.
    pub open spec fn unsigned_bytes(&self, v: nat, width: nat) -> Seq<u8> {
        bytes_of(self.byte_order(), v, width)
    }

    /// The bytes that hold the two's-complement form of `v` in `width`
    /// bytes, in the writer's byte order.
    pub open spec fn signed_bytes(&self, v: int, width: nat) -> Seq<u8> {
        bytes_of(self.byte_order(), twos_complement(v, width), width)
    }

    /// What a write of `bytes`, which ended in `r`, leaves of `self` in
    /// `after`. The order stays. Where the sink carries a model: on success
    /// the sink has taken all of them; on failure some proper prefix, and
    /// the error is the one the sink reported or else that it ran out; a
    /// sink without room for them fails; and a dependable sink succeeds
    /// exactly when it has room.
    pub open spec fn write_step(&self, after: Self, bytes: Seq<u8>, r: Result<(), Error>) -> bool {
        &&& after.byte_order() == self.byte_order()
        &&& self.modeled() ==> {
            &&& after.modeled()
            &&& r is Ok ==> after.taken() == self.taken() + bytes && after.room() == room_after(
                self.room(),
                bytes.len(),
            )
            &&& r matches Err(e) ==> {
                &&& e == passed_on(after.last_error(), Error::WriteZero)
                &&& exists|k: int|
                    0 <= k < bytes.len() && after.taken() == self.taken()
                        + #[trigger] bytes.take(k)
            }
            &&& !fits(self.room(), bytes.len()) ==> r is Err
            &&& self.dependable() ==> {
                &&& after.dependable()
                &&& (r is Ok <==> fits(self.room(), bytes.len()))
                &&& r is Err ==> r == Err::<(), Error>(Error::WriteZero)
            }
        }
    }

    /// Wraps `w`, writing in the byte order of the machine that runs the
    /// code.
    pub fn new(w: W) -> (r: NumberWriter<W>)
        ensures
            r.sink() == w,
            r.byte_order() == native_order(),
    {
        NumberWriter::with_order(ByteOrder::native(), w)
    }

    /// Wraps `w`, writing in byte order `order`.
    pub fn with_order(order: ByteOrder, w: W) -> (r: NumberWriter<W>)
        ensures
            r.sink() == w,
            r.byte_order() == order,
    {
        NumberWriter { inner: w, order }
    }

    /// Gives the wrapped sink back.
    pub fn into_inner(self) -> (r: W)
        ensures
            r == self.sink(),
    {
        self.inner
    }

    /// The wrapped sink.
    pub fn get_ref(&self) -> (r: &W)
        ensures
            *r == self.sink(),
    {
        &self.inner
    }

    /// The wrapped sink, to change; the byte order stays.
    pub fn get_mut(&mut self) -> (r: &mut W)
        ensures
            *r == old(self).sink(),
            final(self).sink() == *final(r),
            final(self).byte_order() == old(self).byte_order(),
    {
        &mut self.inner
    }

    /// Writes the `width` bytes that hold `u` in the writer's byte order.
    fn write_pattern(&mut self, u: u128, width: usize) -> (r: Result<(), Error>)
        requires
            1 <= width <= 16,
            u < pow256(width as nat),
        ensures
            old(self).write_step(*final(self), old(self).unsigned_bytes(u as nat, width as nat), r),
    {
        let bytes = encode(self.order, u, width);
        write_all(&mut self.inner, bytes.as_slice())
    }

    /// Writes an unsigned 8-bit number: the byte itself, in either order.
    pub fn write_u8(&mut self, n: u8) -> (r: Result<(), Error>)
        ensures
            old(self).write_step(*final(self), seq![n], r),
    {
        proof {
            lemma_pow256_facts(1);
            lemma_single_byte(old(self).byte_order(), n);
        }
        self.write_pattern(n as u128, 1)
    }

    /// Writes a signed 8-bit number: its two's-complement byte, in either
    /// order.
    pub fn write_i8(&mut self, n: i8) -> (r: Result<(), Error>)
        ensures
            old(self).write_step(*final(self), old(self).signed_bytes(n as int, 1), r),
    {
        proof {
            lemma_pow256_facts(1);
        }
        let u = to_pattern(n as i128, 1);
        self.write_pattern(u, 1)
    }

    /// Writes an unsigned 16-bit number.
    pub fn write_u16(&mut self, n: u16) -> (r: Result<(), Error>)
        ensures
            old(self).write_step(*final(self), old(self).unsigned_bytes(n as nat, 2), r),
    {
        proof {
            lemma_pow256_facts(2);
        }
        self.write_pattern(n as u128, 2)
    }

    /// Writes a signed 16-bit number.
    pub fn write_i16(&mut self, n: i16) -> (r: Result<(), Error>)
        ensures
            old(self).write_step(*final(self), old(self).signed_bytes(n as int, 2), r),
    {
        proof {
            lemma_pow256_facts(2);
        }
        let u = to_pattern(n as i128, 2);
        self.write_pattern(u, 2)
    }

    /// Writes an unsigned 32-bit number.
    pub fn write_u32(&mut self, n: u32) -> (r: Result<(), Error>)
        ensures
            old(self).write_step(*final(self), old(self).unsigned_bytes(n as nat, 4), r),
    {
        proof {
            lemma_pow256_facts(4);
        }
        self.write_pattern(n as u128, 4)
    }

    /// Writes a signed 32-bit number.
    pub fn write_i32(&mut self, n: i32) -> (r: Result<(), Error>)
        ensures
            old(self).write_step(*final(self), old(self).signed_bytes(n as int, 4), r),
    {
        proof {
            lemma_pow256_facts(4);
        }
        let u = to_pattern(n as i128, 4);
        self.write_pattern(u, 4)
    }

    /// Writes an unsigned 64-bit number.
    pub fn write_u64(&mut self, n: u64) -> (r: Result<(), Error>)
        ensures
            old(self).write_step(*final(self), old(self).unsigned_bytes(n as nat, 8), r),
    {
        proof {
            lemma_pow256_facts(8);
        }
        self.write_pattern(n as u128, 8)
    }

    /// Writes a signed 64-bit number.
    pub fn write_i64(&mut self, n: i64) -> (r: Result<(), Error>)
        ensures
            old(self).write_step(*final(self), old(self).signed_bytes(n as int, 8), r),
    {
        proof {
            lemma_pow256_facts(8);
        }
        let u = to_pattern(n as i128, 8);
        self.write_pattern(u, 8)
    }

    /// Writes an unsigned 128-bit number.
    pub fn write_u128(&mut self, n: u128) -> (r: Result<(), Error>)
        ensures
            old(self).write_step(*final(self), old(self).unsigned_bytes(n as nat, 16), r),
    {
        proof {
            lemma_pow256_facts(16);
        }
        self.write_pattern(n, 16)
    }

    /// Writes a signed 128-bit number.
    pub fn write_i128(&mut self, n: i128) -> (r: Result<(), Error>)
        ensures
            old(self).write_step(*final(self), old(self).signed_bytes(n as int, 16), r),
    {
        proof {
            lemma_pow256_facts(16);
        }
        let u = to_pattern(n, 16);
        self.write_pattern(u, 16)
    }
}

/// A writer is itself a byte sink: raw writes and flushes go straight to
/// the wrapped sink.
impl<W: ByteSink> ByteSink for NumberWriter<W> {
    open spec fn modeled(&self) -> bool {
        self.sink().modeled()
    }

    open spec fn taken(&self) -> Seq<u8> {
        self.sink().taken()
    }

    open spec fn room(&self) -> Option<nat> {
        self.sink().room()
    }

    open spec fn dependable(&self) -> bool {
        self.sink().dependable()
    }

    open spec fn last_error(&self) -> Option<Error> {
        self.sink().last_error()
    }

    fn write(&mut self, buf: &[u8]) -> (r: Result<usize, Error>) {
        self.inner.write(buf)
    }

    fn flush(&mut self) -> (r: Result<(), Error>) {
        self.inner.flush()
    }
}

} // verus!
