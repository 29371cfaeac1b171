//! Reading and writing single values through byte sources and sinks.

use vstd::prelude::*;
use crate::order::{AsSlice, ByteOrder};

verus! {

/// A source of bytes: each call to `read` hands out some of its next bytes,
/// or fails.
///
/// `next` and `moved` describe one read: what it returns, and the state
/// the source is left in.
pub trait ByteSource: Sized {
    /// What a failed read reports.
    type Error;

    /// What a read into a buffer of `want` bytes hands out (at most `want`
    /// bytes), or the error it fails with.
    spec fn next(&self, want: nat) -> Result<Seq<u8>, Self::Error>;

    /// `after` is a state this source may be in after one read into a buffer
    /// of `want` bytes.
    spec fn moved(&self, want: nat, after: Self) -> bool;

    /// Fills a prefix of `buf` with the next bytes, and returns its length.
    fn read<A: AsSlice<u8>>(&mut self, buf: &mut A) -> (r: Result<usize, Self::Error>)
        ensures
            final(buf).items().len() == old(buf).items().len(),
            old(self).moved(old(buf).items().len() as nat, *final(self)),
            match old(self).next(old(buf).items().len() as nat) {
                Ok(s) => {
                    &&& s.len() <= old(buf).items().len()
                    &&& r == Ok::<usize, Self::Error>(s.len() as usize)
                    &&& final(buf).items().take(s.len() as int) == s
                },
                Err(e) => r == Err::<usize, Self::Error>(e),
            },
    ;
}

/// A sink of bytes.
///
/// `written` is everything the sink has accepted so far, in order; `write_step`
/// describes one write: what it returns and the state it leaves.
pub trait ByteSink: Sized {
    /// What a failed write reports.
    type Error;

    /// The bytes accepted so far.
    spec fn written(&self) -> Seq<u8>;

    /// Writing `bytes` may leave this sink as `after` and return `r`.
    spec fn write_step(&self, bytes: Seq<u8>, after: Self, r: Result<(), Self::Error>) -> bool;

    /// Writes all of `bytes`; on an error, a prefix of them may have been accepted.
    fn write_all(&mut self, bytes: &[u8]) -> (r: Result<(), Self::Error>)
        ensures
            old(self).write_step(bytes@, *final(self), r),
            write_outcome(old(self).written(), final(self).written(), bytes@, r),
    ;
}

/// `after` is `before` followed by some prefix of `bytes`.
pub open spec fn accepted_prefix(before: Seq<u8>, after: Seq<u8>, bytes: Seq<u8>) -> bool {
    &&& before.len() <= after.len() <= before.len() + bytes.len()
    &&& after == before + bytes.take(after.len() - before.len())
}

/// What `read_as` in byte order `B` returns when its one read of `width()`
/// bytes had the outcome `got`: the value only when all `width()` bytes came,
/// `Incomplete` after fewer (none included), and the source's own error.
pub open spec fn read_outcome<T, E, B: ByteOrder<T>>(
    got: Result<Seq<u8>, E>,
    r: Result<T, ReadError<E>>,
) -> bool {
    match got {
        Ok(s) => if s.len() == B::width() {
            r == Ok::<T, ReadError<E>>(B::decode(s))
        } else {
            r == Err::<T, ReadError<E>>(ReadError::Incomplete)
        },
        Err(e) => r == Err::<T, ReadError<E>>(ReadError::Source(e)),
    }
}

/// What writing `bytes` may do to a sink that held `before` and then holds
/// `after`: on success all of them were accepted, on an error a prefix.
pub open spec fn write_outcome<E>(
    before: Seq<u8>,
    after: Seq<u8>,
    bytes: Seq<u8>,
    r: Result<(), E>,
) -> bool {
    match r {
        Ok(()) => after == before + bytes,
        Err(_) => accepted_prefix(before, after, bytes),
    }
}

/// Why a value could not be read.
#[derive(Debug)]
pub enum ReadError<E> {
    /// The source handed out fewer bytes than the value takes.
    Incomplete,
    /// The source itself failed.
    Source(E),
}

/// Turns what one read into a `width()`-byte buffer returned, and the buffer
/// it filled, into the value read in byte order `B` or the reason there is none.
pub fn read_result<T, E, B: ByteOrder<T>>(got: Result<usize, E>, buf: B::Buffer) -> (r: Result<
    T,
    ReadError<E>,
>)
    ensures
        match got {
            Ok(n) => if n == B::width() {
                r == Ok::<T, ReadError<E>>(B::decode(buf.items()))
            } else {
                r == Err::<T, ReadError<E>>(ReadError::Incomplete)
            },
            Err(e) => r == Err::<T, ReadError<E>>(ReadError::Source(e)),
        },
{
    proof {
        B::lemma_buffer(buf);
    }
    match got {
        Ok(n) => {
            if n != buf.as_slice().len() {
                Err(ReadError::Incomplete)
            } else {
                Ok(B::from_bytes(buf))
            }
        },
        Err(e) => Err(ReadError::Source(e)),
    }
}

/// Reading a `T` in a chosen byte order.
pub trait ReadBytesExt<T>: ByteSource {
    /// Reads one `T` in byte order `B` with exactly one read into a zeroed
    /// buffer of `width()` bytes.
    ///
    /// Succeeds exactly when that read hands out all `width()` bytes, and then
    /// returns the value they encode; a shorter read gives `Incomplete`, and a
    /// failed one the source's error.
    fn read_as<B: ByteOrder<T>>(&mut self) -> (r: Result<T, ReadError<Self::Error>>)
        ensures
            old(self).moved(B::width(), *final(self)),
            read_outcome::<T, Self::Error, B>(old(self).next(B::width()), r),
    ;
}

/// Writing a `T` in a chosen byte order.
pub trait WriteBytesExt<T>: ByteSink {
    /// Writes the `width()` bytes of `n` in byte order `B`, with one write.
    fn write_as<B: ByteOrder<T>>(&mut self, n: T) -> (r: Result<(), Self::Error>)
        ensures
            old(self).write_step(B::encode(n), *final(self), r),
            write_outcome(old(self).written(), final(self).written(), B::encode(n), r),
    ;
}

impl<T, R: ByteSource> ReadBytesExt<T> for R {
    fn read_as<B: ByteOrder<T>>(&mut self) -> (r: Result<T, ReadError<R::Error>>) {
        let mut buf = B::buffer();
        proof {
            B::lemma_buffer(buf);
        }
        let len = buf.as_slice().len();
        let got = self.read(&mut buf);
        proof {
            B::lemma_buffer(buf);
            if let Ok(s) = old(self).next(B::width()) {
                assert(s.len() <= len);
                if s.len() == B::width() {
                    assert(buf.items().take(s.len() as int) =~= buf.items());
                }
            }
        }
        read_result::<T, R::Error, B>(got, buf)
    }
}

impl<T, W: ByteSink> WriteBytesExt<T> for W {
    fn write_as<B: ByteOrder<T>>(&mut self, n: T) -> (r: Result<(), W::Error>) {
        let buf = B::into_bytes(n);
        self.write_all(buf.as_slice())
    }
}

/// Reading back what was written: where the one read hands out exactly the
/// bytes that `write_as` wrote for `v`, `read_as` in the same byte order
/// returns `v`.
pub proof fn stream_round_trip<T, E, B: ByteOrder<T>>(v: T, r: Result<T, ReadError<E>>)
    requires
        read_outcome::<T, E, B>(Ok(B::encode(v)), r),
    ensures
        r == Ok::<T, ReadError<E>>(v),
{
    B::lemma_codec(v, Seq::empty());
}

/// A read that hands out fewer than `width()` bytes, none included, makes
/// `read_as` fail with `Incomplete`.
pub proof fn short_read_fails<T, E, B: ByteOrder<T>>(s: Seq<u8>, r: Result<T, ReadError<E>>)
    requires
        read_outcome::<T, E, B>(Ok(s), r),
        s.len() < B::width(),
    ensures
        r matches Err(ReadError::Incomplete),
{
}

/// An in-memory source over a byte vector: each read hands out as many of the
/// remaining bytes as fit in the buffer.
pub struct SliceReader {
    bytes: Vec<u8>,
    pos: usize,
}

impl SliceReader {
    #[verifier::type_invariant]
    spec fn inv(&self) -> bool {
        self.pos <= self.bytes.len()
    }

    /// All bytes of the source, handed out or not.
    pub closed spec fn data(&self) -> Seq<u8> {
        self.bytes@
    }

    /// How many bytes have been handed out.
    pub closed spec fn spec_position(&self) -> nat {
        self.pos as nat
    }

    /// The bytes not yet handed out.
    pub open spec fn rest(&self) -> Seq<u8> {
        self.data().skip(self.spec_position() as int)
    }

    /// How many bytes a read into a buffer of `want` bytes hands out.
    pub open spec fn take_len(&self, want: nat) -> nat {
        if want < self.rest().len() {
            want
        } else {
            self.rest().len()
        }
    }

    /// A source that will hand out `bytes`.
    pub fn new(bytes: Vec<u8>) -> (r: SliceReader)
        ensures
            r.data() == bytes@,
            r.spec_position() == 0,
            r.rest() == bytes@,
    {
        let r = SliceReader { bytes, pos: 0 };
        assert(r.rest() =~= bytes@);
        r
    }

    /// How many bytes have been handed out.
    pub fn position(&self) -> (r: usize)
        ensures
            r == self.spec_position(),
            r <= self.data().len(),
    {
        proof {
            use_type_invariant(self);
        }
        self.pos
    }

    /// How many bytes are left to hand out.
    pub fn remaining(&self) -> (r: usize)
        ensures
            r == self.data().len() - self.spec_position(),
            r == self.rest().len(),
    {
        proof {
            use_type_invariant(self);
        }
        self.bytes.len() - self.pos
    }
}

impl ByteSource for SliceReader {
    type Error = ();

    open spec fn next(&self, want: nat) -> Result<Seq<u8>, ()> {
        Ok(self.rest().take(self.take_len(want) as int))
    }

    open spec fn moved(&self, want: nat, after: SliceReader) -> bool {
        &&& after.data() == self.data()
        &&& after.spec_position() == self.spec_position() + self.take_len(want)
        &&& after.rest() == self.rest().skip(self.take_len(want) as int)
    }

    fn read<A: AsSlice<u8>>(&mut self, buf: &mut A) -> (r: Result<usize, ()>)
        ensures
            final(self).data() == old(self).data(),
            r == Ok::<usize, ()>(old(self).take_len(old(buf).items().len() as nat) as usize),
            final(buf).items().take(r->Ok_0 as int) == old(self).rest().take(r->Ok_0 as int),
    {
        proof {
            use_type_invariant(&*self);
        }
        let want = buf.as_slice().len();
        let left = self.bytes.len() - self.pos;
        let n: usize = if want < left { want } else { left };
        let start = self.pos;
        let mut i: usize = 0;
        while i < n
            invariant
                i <= n,
                n <= want,
                start + n <= self.bytes.len(),
                want == old(buf).items().len(),
                buf.items().len() == want,
                self.pos == start,
                self.bytes@ == old(self).bytes@,
                old(self).pos == start,
                forall|k: int| 0 <= k < i ==> buf.items()[k] == self.bytes@[start + k],
            decreases n - i,
        {
            let b = self.bytes[start + i];
            buf.put(i, b);
            i = i + 1;
        }
        self.pos = start + n;
        proof {
            assert(buf.items().take(n as int) =~= old(self).rest().take(n as int));
            assert(self.rest() =~= old(self).rest().skip(n as int));
        }
        Ok(n)
    }
}

impl ByteSink for Vec<u8> {
    type Error = ();

    open spec fn written(&self) -> Seq<u8> {
        self@
    }

    /// A vector accepts every byte.
    open spec fn write_step(&self, bytes: Seq<u8>, after: Vec<u8>, r: Result<(), ()>) -> bool {
        &&& r is Ok
        &&& after@ == self@ + bytes
    }

    fn write_all(&mut self, bytes: &[u8]) -> (r: Result<(), ()>) {
        let mut i: usize = 0;
        while i < bytes.len()
            invariant
                i <= bytes@.len(),
                self@ == old(self)@ + bytes@.take(i as int),
            decreases bytes@.len() - i,
        {
            self.push(bytes[i]);
            i = i + 1;
            assert(self@ =~= old(self)@ + bytes@.take(i as int));
        }
        assert(bytes@.take(i as int) =~= bytes@);
        Ok(())
    }
}

} // verus!
