//! The lookahead buffer: bytes read ahead of a source for inspection, then
//! replayed exactly once in front of the rest of that source.
use vstd::prelude::*;

use crate::source::ByteSource;

verus! {

/// The smaller of `a` and `b`.
pub open spec fn min_nat(a: nat, b: nat) -> nat {
    if a < b { a } else { b }
}

/// A byte buffer of capacity `N`.
#[derive(Debug)]
pub struct Buf<const N: usize> {
    inner: Vec<u8>,
}

impl<const N: usize> View for Buf<N> {
    type V = Seq<u8>;

    closed spec fn view(&self) -> Seq<u8> {
        self.inner@
    }
}

impl<const N: usize> Buf<N> {
    #[verifier::type_invariant]
    spec fn inv(&self) -> bool {
        self.inner.len() <= N
    }

    /// An empty buffer.
    pub fn new() -> (r: Self)
        ensures
            r@ == Seq::<u8>::empty(),
    {
        Buf { inner: Vec::new() }
    }

    /// The bytes held so far; never more than `N`.
    pub fn as_slice(&self) -> (r: &[u8])
        ensures
            r@ == self@,
            r@.len() <= N,
    {
        proof {
            use_type_invariant(self);
        }
        self.inner.as_slice()
    }

    /// Fills the free room of the buffer from `reader`, as far as the reader
    /// has bytes; returns how many bytes were added.
    pub fn append_from_reader(&mut self, reader: &mut ByteSource) -> (n: usize)
        ensures
            old(self)@.len() <= N,
            n == min_nat((N - old(self)@.len()) as nat, old(reader)@.len()),
            final(self)@ == old(self)@ + old(reader)@.take(n as int),
            final(reader)@ == old(reader)@.skip(n as int),
            final(self)@.len() <= N,
    {
        let mut taken: Buf<N> = Buf::new();
        std::mem::swap(self, &mut taken);
        proof {
            use_type_invariant(&taken);
        }
        let Buf { mut inner } = taken;
        let room = N - inner.len();
        let n = reader.read(&mut inner, room);
        *self = Buf { inner };
        n
    }
}

/// A stream that replays the bytes of a lookahead buffer, then goes on with
/// the rest of the source they were read from.
#[derive(Debug)]
pub struct PeekableReader<const N: usize> {
    buf: Buf<N>,
    pos: usize,
    reader: ByteSource,
}

impl<const N: usize> View for PeekableReader<N> {
    type V = Seq<u8>;

    /// The bytes this stream still yields.
    closed spec fn view(&self) -> Seq<u8> {
        self.buf@.skip(self.pos as int) + self.reader@
    }
}

impl<const N: usize> PeekableReader<N> {
    #[verifier::type_invariant]
    spec fn inv(&self) -> bool {
        self.pos <= self.buf@.len()
    }

    /// The bytes that were read ahead.
    pub closed spec fn peeked(&self) -> Seq<u8> {
        self.buf@
    }

    /// The bytes that were read ahead, unchanged by reading the stream.
    pub fn peek_buf(&self) -> (r: &[u8])
        ensures
            r@ == self.peeked(),
            r@.len() <= N,
    {
        self.buf.as_slice()
    }

    /// Moves up to `max` bytes from the front of the stream to the end of
    /// `out`; returns how many were moved, 0 only when `max` is 0 or the
    /// stream is exhausted.
    pub fn read(&mut self, out: &mut Vec<u8>, max: usize) -> (n: usize)
        ensures
            n <= max,
            n <= old(self)@.len(),
            n == 0 ==> max == 0 || old(self)@.len() == 0,
            final(out)@ == old(out)@ + old(self)@.take(n as int),
            final(self)@ == old(self)@.skip(n as int),
            final(self).peeked() == old(self).peeked(),
    {
        proof {
            use_type_invariant(&*self);
        }
        let ghost whole = self@;
        let buf = self.buf.as_slice();
        if self.pos < buf.len() {
            let avail = buf.len() - self.pos;
            let n: usize = if max < avail { max } else { avail };
            let ghost out0 = out@;
            let start = self.pos;
            let mut k: usize = 0;
            while k < n
                invariant
                    k <= n,
                    n <= avail,
                    avail == buf@.len() - start,
                    start == self.pos,
                    buf@ == self.buf@,
                    whole == self@,
                    start + n <= buf@.len(),
                    buf@.len() <= usize::MAX,
                    out@ == out0 + whole.take(k as int),
                decreases n - k,
            {
                out.push(buf[start + k]);
                k += 1;
                proof {
                    assert(out@ =~= out0 + whole.take(k as int));
                }
            }
            self.pos = self.pos + n;
            proof {
                assert(self@ =~= whole.skip(n as int));
            }
            n
        } else {
            let mut taken = PeekableReader { buf: Buf::new(), pos: 0, reader: ByteSource::new(Vec::new()) };
            std::mem::swap(self, &mut taken);
            let PeekableReader { buf, pos, mut reader } = taken;
            proof {
                assert(buf@.skip(pos as int) =~= Seq::<u8>::empty());
                assert(whole =~= reader@);
            }
            let n = reader.read(out, max);
            *self = PeekableReader { buf, pos, reader };
            proof {
                assert(self@ =~= whole.skip(n as int));
            }
            n
        }
    }

    /// Every byte the stream still yields, as a source of its own.
    pub fn into_source(self) -> (r: ByteSource)
        ensures
            r@ == self@,
    {
        let mut s = self;
        let mut out: Vec<u8> = Vec::new();
        let ghost whole = s@;
        proof {
            use_type_invariant(&s);
        }
        loop
            invariant
                out@ + s@ == whole,
            ensures
                out@ == whole,
            decreases s@.len(),
        {
            let n = s.read(&mut out, 4096);
            proof {
                assert(out@ + s@ =~= whole);
            }
            if n == 0 {
                assert(out@ =~= whole);
                break;
            }
        }
        ByteSource::new(out)
    }
}

/// A lookahead buffer holding up to `N` bytes read ahead of a source.
#[derive(Debug)]
pub struct Peekable<const N: usize> {
    buf: Buf<N>,
    reader: ByteSource,
}

impl<const N: usize> View for Peekable<N> {
    type V = Seq<u8>;

    /// The whole stream: the bytes read ahead, then the rest of the source.
    closed spec fn view(&self) -> Seq<u8> {
        self.buf@ + self.reader@
    }
}

impl<const N: usize> Peekable<N> {
    /// The bytes that were read ahead.
    pub closed spec fn peeked(&self) -> Seq<u8> {
        self.buf@
    }

    /// Reads ahead up to `N` bytes of `reader`; a shorter input is no error.
    pub fn new(reader: ByteSource) -> (r: Self)
        ensures
            r@ == reader@,
            r.peeked() == reader@.take(min_nat(N as nat, reader@.len()) as int),
    {
        let mut reader = reader;
        let ghost whole = reader@;
        let mut buf: Buf<N> = Buf::new();
        let mut total_read: usize = 0;
        while total_read < N
            invariant
                buf@ + reader@ == whole,
                total_read == buf@.len(),
                total_read <= N,
            ensures
                buf@ + reader@ == whole,
                buf@.len() <= N,
                buf@.len() == N || reader@.len() == 0,
            decreases N - total_read,
        {
            let read = buf.append_from_reader(&mut reader);
            if read == 0 {
                break;
            }
            total_read += read;
            proof {
                assert(buf@ + reader@ =~= whole);
            }
        }
        proof {
            assert(buf@ + reader@ =~= whole);
            assert(buf@ =~= whole.take(buf@.len() as int));
        }
        Peekable { buf, reader }
    }

    /// The bytes that were read ahead; may be asked for any number of times.
    pub fn peek_buf(&self) -> (r: &[u8])
        ensures
            r@ == self.peeked(),
            r@.len() <= N,
    {
        self.buf.as_slice()
    }

    /// Turns the buffer into the stream it stands for: the bytes read ahead,
    /// then the rest of the source, each exactly once.
    pub fn into_reader(self) -> (r: PeekableReader<N>)
        ensures
            r@ == self@,
            r.peeked() == self.peeked(),
    {
        let r = PeekableReader { buf: self.buf, pos: 0, reader: self.reader };
        proof {
            assert(r.buf@.skip(0) =~= r.buf@);
        }
        r
    }
}

} // verus!
