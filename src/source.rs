//! A forward-only byte source over bytes held in memory.
use vstd::prelude::*;

verus! {

/// A forward-only producer of bytes: what has been read is never seen again.
#[derive(Debug)]
pub struct ByteSource {
    data: Vec<u8>,
    pos: usize,
}

impl View for ByteSource {
    type V = Seq<u8>;

    /// The bytes that have not been read yet.
    closed spec fn view(&self) -> Seq<u8> {
        self.data@.subrange(self.pos as int, self.data@.len() as int)
    }
}

impl ByteSource {
    #[verifier::type_invariant]
    spec fn inv(&self) -> bool {
        self.pos <= self.data.len()
    }

    /// A source that yields exactly `data`.
    pub fn new(data: Vec<u8>) -> (r: Self)
        ensures
            r@ == data@,
    {
        proof {
            assert(data@.subrange(0, data@.len() as int) =~= data@);
        }
        ByteSource { data, pos: 0 }
    }

    /// A source that yields a copy of `data`.
    pub fn from_slice(data: &[u8]) -> (r: Self)
        ensures
            r@ == data@,
    {
        let mut v: Vec<u8> = Vec::new();
        let mut i: usize = 0;
        while i < data.len()
            invariant
                i <= data@.len(),
                v@ == data@.take(i as int),
            decreases data@.len() - i,
        {
            v.push(data[i]);
            i += 1;
            proof {
                assert(v@ =~= data@.take(i as int));
            }
        }
        proof {
            assert(data@.take(i as int) =~= data@);
        }
        Self::new(v)
    }

    /// Number of bytes that are left.
    pub fn remaining(&self) -> (n: usize)
        ensures
            n == self@.len(),
    {
        proof {
            use_type_invariant(self);
        }
        self.data.len() - self.pos
    }

    /// Moves up to `max` bytes from the front of the source to the end of `out`;
    /// returns how many were moved. Fewer than `max` only at the end of input.
    pub fn read(&mut self, out: &mut Vec<u8>, max: usize) -> (n: usize)
        ensures
            n == if max < old(self)@.len() { max as int } else { old(self)@.len() as int },
            final(out)@ == old(out)@ + old(self)@.take(n as int),
            final(self)@ == old(self)@.skip(n as int),
    {
        proof {
            use_type_invariant(&*self);
        }
        let avail = self.data.len() - self.pos;
        let n: usize = if max < avail { max } else { avail };
        let ghost before = self@;
        let ghost out0 = out@;
        let mut k: usize = 0;
        while k < n
            invariant
                k <= n,
                n <= avail,
                avail == self.data.len() - self.pos,
                self.pos + n <= self.data.len(),
                before == self.data@.subrange(self.pos as int, self.data@.len() as int),
                out@ == out0 + before.take(k as int),
            decreases n - k,
        {
            out.push(self.data[self.pos + k]);
            k += 1;
            proof {
                assert(out@ =~= out0 + before.take(k as int));
            }
        }
        self.pos = self.pos + n;
        proof {
            assert(self@ =~= before.skip(n as int));
        }
        n
    }

    /// Every byte that is left, in order.
    pub fn read_to_end(self) -> (r: Vec<u8>)
        ensures
            r@ == self@,
    {
        let mut s = self;
        let mut out: Vec<u8> = Vec::new();
        let n = s.remaining();
        let _ = s.read(&mut out, n);
        proof {
            assert(out@ =~= s@.take(0) + self@.take(n as int));
            assert(self@.take(n as int) =~= self@);
        }
        out
    }
}

} // verus!
