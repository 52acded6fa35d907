//! The byte streams that readers and writers wrap, and the two loops that
//! turn their partial transfers into whole ones.
use vstd::prelude::*;
use vstd::slice::slice_subrange;

verus! {

/// Declares std's I/O error, which the library passes on as it comes.
#[verifier::external_type_specification]
#[verifier::external_body]
pub struct ExIoError(std::io::Error);

/// Why a stream operation failed.
#[derive(Debug)]
pub enum Error {
    /// The source ended before the requested bytes were read.
    UnexpectedEof,
    /// The sink stopped taking bytes before the whole run was written.
    WriteZero,
    /// A failure that the source or sink reports for reasons of its own.
    Io(std::io::Error),
}

/// The error that `r` carries, if any.
pub open spec fn reported<T>(r: Result<T, Error>) -> Option<Error> {
    match r {
        Ok(_) => None,
        Err(e) => Some(e),
    }
}

/// The error that a whole transfer passes on when it stops: the one the
/// stream reported last, or `short` where the stream reported none and only
/// ran out.
pub open spec fn passed_on(last: Option<Error>, short: Error) -> Error {
    match last {
        Some(e) => e,
        None => short,
    }
}

/// Whether a sink with `room` left (`None`: no bound) can take `n` more bytes.
pub open spec fn fits(room: Option<nat>, n: nat) -> bool {
    match room {
        Option::None => true,
        Option::Some(k) => n <= k,
    }
}

/// The room that is left once `n` bytes have gone into a sink with `room` left.
pub open spec fn room_after(room: Option<nat>, n: nat) -> Option<nat> {
    match room {
        Option::None => Option::None,
        Option::Some(k) => Option::Some((k - n) as nat),
    }
}

/// Whether `after` is what is left of `before` once some prefix is gone.
pub open spec fn is_suffix_of(after: Seq<u8>, before: Seq<u8>) -> bool {
    &&& after.len() <= before.len()
    &&& after == before.skip(before.len() - after.len())
}

/// A sequential source of bytes.
///
/// A source may carry a model of itself: the bytes it still holds, whether
/// it fails only by running out, and what its last call reported. One that
/// keeps the defaults carries none, and then nothing is stated of it beyond
/// the lengths it returns.
pub trait ByteSource {
    /// Whether the source carries the model below.
    open spec fn modeled(&self) -> bool {
        false
    }

    /// The bytes that the source will still hand out, in order, before it ends.
    open spec fn remaining(&self) -> Seq<u8> {
        Seq::empty()
    }

    /// Whether the source fails only by running out of bytes.
    open spec fn dependable(&self) -> bool {
        false
    }

    /// The error that the last call reported; `None` after one that succeeded.
    open spec fn last_error(&self) -> Option<Error> {
        None
    }

    /// Reads at most `buf.len()` bytes into the front of `buf` and returns
    /// how many. `Ok(0)` for a non-empty `buf` means that the source has
    /// ended; on an error nothing is consumed.
    fn read(&mut self, buf: &mut [u8]) -> (r: Result<usize, Error>)
        ensures
            final(buf)@.len() == old(buf)@.len(),
            r matches Ok(n) ==> n <= old(buf)@.len(),
            old(self).modeled() ==> {
                &&& final(self).modeled()
                &&& final(self).last_error() == reported(r)
                &&& match r {
                    Ok(n) => {
                        &&& n <= old(self).remaining().len()
                        &&& (n == 0 ==> old(buf)@.len() == 0 || old(self).remaining().len() == 0)
                        &&& final(buf)@.take(n as int) == old(self).remaining().take(n as int)
                        &&& final(self).remaining() == old(self).remaining().skip(n as int)
                    },
                    Err(_) => final(self).remaining() == old(self).remaining(),
                }
                &&& old(self).dependable() ==> r is Ok && final(self).dependable()
            },
    ;
}

/// A sequential sink of bytes.
///
/// A sink may carry a model of itself: the bytes it has taken, the room it
/// has left, whether it fails only by running out of room, and what its
/// last call reported. One that keeps the defaults carries none, and then
/// nothing is stated of it beyond the lengths it returns.
pub trait ByteSink {
    /// Whether the sink carries the model below.
    open spec fn modeled(&self) -> bool {
        false
    }

    /// Every byte that the sink has taken so far, in order.
    open spec fn taken(&self) -> Seq<u8> {
        Seq::empty()
    }

    /// How many more bytes the sink will take; `None` where it sets no bound.
    open spec fn room(&self) -> Option<nat> {
        None
    }

    /// Whether the sink fails only by running out of room.
    open spec fn dependable(&self) -> bool {
        false
    }

    /// The error that the last call reported; `None` after one that succeeded.
    open spec fn last_error(&self) -> Option<Error> {
        None
    }

    /// Takes a prefix of `buf` and returns its length. `Ok(0)` for a
    /// non-empty `buf` means that the sink has no room left; on an error
    /// nothing is taken.
    fn write(&mut self, buf: &[u8]) -> (r: Result<usize, Error>)
        ensures
            r matches Ok(n) ==> n <= buf@.len(),
            old(self).modeled() ==> {
                &&& final(self).modeled()
                &&& final(self).last_error() == reported(r)
                &&& match r {
                    Ok(n) => {
                        &&& fits(old(self).room(), n as nat)
                        &&& (n == 0 ==> buf@.len() == 0 || old(self).room() == Some(0nat))
                        &&& final(self).taken() == old(self).taken() + buf@.take(n as int)
                        &&& final(self).room() == room_after(old(self).room(), n as nat)
                    },
                    Err(_) => {
                        &&& final(self).taken() == old(self).taken()
                        &&& final(self).room() == old(self).room()
                    },
                }
                &&& old(self).dependable() ==> r is Ok && final(self).dependable()
            },
    ;

    /// Pushes what the sink holds on to its destination.
    fn flush(&mut self) -> (r: Result<(), Error>)
        ensures
            old(self).modeled() ==> {
                &&& final(self).modeled()
                &&& final(self).last_error() == reported(r)
                &&& final(self).taken() == old(self).taken()
                &&& final(self).room() == old(self).room()
                &&& old(self).dependable() ==> r is Ok && final(self).dependable()
            },
    ;
}

proof fn lemma_skip_is_suffix(s: Seq<u8>, i: int)
    requires
        0 <= i <= s.len(),
    ensures
        is_suffix_of(s.skip(i), s),
{
    assert(s.skip(i) =~= s.skip(s.len() - s.skip(i).len()));
}

/// Reads exactly `n` bytes from `src`.
///
/// Fails with `Error::UnexpectedEof` where the source ends first, and with
/// the source's own error where it fails; the bytes read up to a failure
/// stay consumed.
#[verifier::loop_isolation(false)]
pub fn read_exact<S: ByteSource>(src: &mut S, n: usize) -> (r: Result<Vec<u8>, Error>)
    ensures
        r matches Ok(bytes) ==> bytes@.len() == n,
        old(src).modeled() ==> {
            &&& final(src).modeled()
            &&& match r {
                Ok(bytes) => {
                    &&& n <= old(src).remaining().len()
                    &&& bytes@ == old(src).remaining().take(n as int)
                    &&& final(src).remaining() == old(src).remaining().skip(n as int)
                },
                Err(e) => {
                    &&& is_suffix_of(final(src).remaining(), old(src).remaining())
                    &&& e == passed_on(final(src).last_error(), Error::UnexpectedEof)
                },
            }
            &&& old(src).remaining().len() < n ==> r is Err
            &&& old(src).dependable() ==> {
                &&& final(src).dependable()
                &&& (r is Ok <==> n <= old(src).remaining().len())
                &&& r is Err ==> r == Err::<Vec<u8>, Error>(Error::UnexpectedEof)
            }
        },
{
    let ghost start = src.remaining();
    let ghost modeled = src.modeled();
    let ghost dep = src.dependable();
    let mut out: Vec<u8> = Vec::new();
    while out.len() < n
        invariant
            out@.len() <= n,
            modeled ==> {
                &&& src.modeled()
                &&& out@.len() <= start.len()
                &&& out@ == start.take(out@.len() as int)
                &&& src.remaining() == start.skip(out@.len() as int)
                &&& dep ==> src.dependable()
            },
        decreases n - out@.len(),
    {
        let want = n - out.len();
        let mut chunk: Vec<u8> = vec![0u8; want];
        let res = src.read(chunk.as_mut_slice());
        match res {
            Ok(k) => {
                if k == 0 {
                    proof {
                        if modeled {
                            lemma_skip_is_suffix(start, out@.len() as int);
                            assert(src.remaining() =~= start.skip(out@.len() as int));
                        }
                    }
                    return Err(Error::UnexpectedEof);
                }
                let ghost got = chunk@.take(k as int);
                let ghost before = out@;
                let mut j: usize = 0;
                while j < k
                    invariant
                        j <= k <= chunk@.len(),
                        out@ == before + got.take(j as int),
                        got == chunk@.take(k as int),
                    decreases k - j,
                {
                    out.push(chunk[j]);
                    assert(got.take(j + 1) =~= got.take(j as int).push(chunk@[j as int]));
                    j = j + 1;
                }
                proof {
                    assert(got.take(k as int) =~= got);
                    if modeled {
                        assert(got =~= start.skip(before.len() as int).take(k as int));
                        assert(out@ =~= start.take(out@.len() as int));
                        assert(src.remaining() =~= start.skip(out@.len() as int));
                    }
                }
            },
            Err(e) => {
                proof {
                    if modeled {
                        lemma_skip_is_suffix(start, out@.len() as int);
                    }
                }
                return Err(e);
            },
        }
    }
    proof {
        if modeled {
            assert(start.take(n as int) =~= out@);
        }
    }
    Ok(out)
}

/// Writes the whole of `bytes` to `sink`.
///
/// Fails with `Error::WriteZero` where the sink runs out of room first, and
/// with the sink's own error where it fails; a prefix of `bytes` may have
/// been taken by then.
#[verifier::loop_isolation(false)]
pub fn write_all<S: ByteSink>(sink: &mut S, bytes: &[u8]) -> (r: Result<(), Error>)
    ensures
        old(sink).modeled() ==> {
            &&& final(sink).modeled()
            &&& match r {
                Ok(_) => {
                    &&& final(sink).taken() == old(sink).taken() + bytes@
                    &&& final(sink).room() == room_after(old(sink).room(), bytes@.len())
                },
                Err(e) => {
                    &&& e == passed_on(final(sink).last_error(), Error::WriteZero)
                    &&& exists|k: int|
                        0 <= k < bytes@.len() && final(sink).taken() == old(sink).taken()
                            + #[trigger] bytes@.take(k)
                },
            }
            &&& !fits(old(sink).room(), bytes@.len()) ==> r is Err
            &&& old(sink).dependable() ==> {
                &&& final(sink).dependable()
                &&& (r is Ok <==> fits(old(sink).room(), bytes@.len()))
                &&& r is Err ==> r == Err::<(), Error>(Error::WriteZero)
            }
        },
{
    let ghost start = sink.taken();
    let ghost room = sink.room();
    let ghost modeled = sink.modeled();
    let ghost dep = sink.dependable();
    let len = bytes.len();
    let mut done: usize = 0;
    while done < len
        invariant
            len == bytes@.len(),
            done <= len,
            modeled ==> {
                &&& sink.modeled()
                &&& fits(room, done as nat)
                &&& sink.taken() == start + bytes@.take(done as int)
                &&& sink.room() == room_after(room, done as nat)
                &&& dep ==> sink.dependable()
            },
        decreases len - done,
    {
        let rest = slice_subrange(bytes, done, len);
        let res = sink.write(rest);
        match res {
            Ok(k) => {
                if k == 0 {
                    proof {
                        if modeled {
                            assert(sink.taken() =~= start + bytes@.take(done as int));
                        }
                    }
                    return Err(Error::WriteZero);
                }
                assert(bytes@.take(done as int) + rest@.take(k as int) =~= bytes@.take(
                    done + k,
                ));
                done = done + k;
            },
            Err(e) => {
                return Err(e);
            },
        }
    }
    assert(bytes@.take(len as int) =~= bytes@);
    Ok(())
}

} // verus!
