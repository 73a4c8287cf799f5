//! A reader over a buffer of bytes: each call takes one item off the front.

use vstd::prelude::*;
use crate::cbor::{
    be_value, pow256, lemma_pow256, parse_head, parse_typed, parse_uint, parse_array, parse_map,
    parse_tag, parse_bs, MAJOR_UINT, MAJOR_BYTES, MAJOR_ARRAY, MAJOR_MAP, MAJOR_TAG,
};
use crate::error::Error;

verus! {

/// The bytes fed in so far and how many of them have been read.
pub struct Decoder {
    buf: Vec<u8>,
    pos: usize,
}

impl View for Decoder {
    type V = Seq<u8>;

    /// The bytes not yet read.
    closed spec fn view(&self) -> Seq<u8> {
        self.buf@.skip(self.pos as int)
    }
}

impl Decoder {
    /// The read position lies within the buffer.
    #[verifier::type_invariant]
    spec fn wf(&self) -> bool {
        self.pos <= self.buf.len()
    }

    /// A reader with nothing to read.
    pub fn new() -> (d: Decoder)
        ensures
            d@ == Seq::<u8>::empty(),
    {
        let d = Decoder { buf: Vec::new(), pos: 0 };
        proof {
            assert(d@ =~= Seq::<u8>::empty());
        }
        d
    }

    /// A reader over `bytes`.
    pub fn from_vec(bytes: Vec<u8>) -> (d: Decoder)
        ensures
            d@ == bytes@,
    {
        let d = Decoder { buf: bytes, pos: 0 };
        proof {
            assert(d@ =~= bytes@);
        }
        d
    }

    /// Adds `bytes` behind what is still to be read.
    pub fn extend(&mut self, bytes: &[u8])
        ensures
            final(self)@ == old(self)@ + bytes@,
    {
        proof {
            use_type_invariant(&*self);
        }
        let mut buf: Vec<u8> = Vec::new();
        buf.extend_from_slice(self.buf.as_slice());
        buf.extend_from_slice(bytes);
        let pos = self.pos;
        *self = Decoder { buf, pos };
        proof {
            assert(self@ =~= old(self)@ + bytes@);
        }
    }

    /// How many bytes are still to be read.
    pub fn remaining(&self) -> (n: usize)
        ensures
            n == self@.len(),
    {
        proof {
            use_type_invariant(self);
        }
        self.buf.len() - self.pos
    }

    /// The number that the `n` bytes from index `at` of the buffer spell.
    fn be(&self, at: usize, n: usize) -> (v: u64)
        requires
            n <= 8,
            self.pos <= at,
            at + n <= self.buf.len(),
        ensures
            v == be_value(self@, at - self.pos, n as nat),
    {
        let mut v: u64 = 0;
        let mut i: usize = 0;
        while i < n
            invariant
                i <= n <= 8,
                self.pos <= at,
                at + n <= self.buf.len(),
                v == be_value(self@, at - self.pos, i as nat),
                v < pow256(i as nat),
            decreases n - i,
        {
            let b = self.buf[at + i];
            proof {
                assert(self@[at - self.pos + i] == b);
                lemma_pow256(i as nat);
            }
            v = v * 256 + (b as u64);
            i = i + 1;
        }
        v
    }

    /// Reads one header of any major type.  A header that cannot be read
    /// is left where it is.
    pub fn head(&mut self) -> (r: Result<(u8, u64), Error>)
        ensures
            match r {
                Ok((major, v)) => parse_head(old(self)@) == Ok::<_, Error>(
                    (major, v, final(self)@),
                ),
                Err(e) => parse_head(old(self)@) == Err::<(u8, u64, Seq<u8>), _>(e),
            },
            r is Err ==> final(self)@ == old(self)@,
    {
        proof {
            use_type_invariant(&*self);
            reveal(parse_head);
        }
        let len = self.buf.len();
        if self.pos >= len {
            return Err(Error::UnexpectedEnd);
        }
        let first = self.buf[self.pos];
        proof {
            assert(self@[0] == first);
        }
        let major = first / 32;
        let info = first % 32;
        if info >= 28 {
            return Err(Error::UnexpectedType);
        }
        let n: usize = if info < 24 {
            0
        } else if info == 24 {
            1
        } else if info == 25 {
            2
        } else if info == 26 {
            4
        } else {
            8
        };
        if len - self.pos - 1 < n {
            return Err(Error::UnexpectedEnd);
        }
        let v = if info < 24 {
            info as u64
        } else {
            self.be(self.pos + 1, n)
        };
        self.pos = self.pos + 1 + n;
        proof {
            assert(self@ =~= old(self)@.skip(1 + n as int));
        }
        Ok((major, v))
    }

    /// Reads one header and insists on its major type.
    fn typed(&mut self, major: u8) -> (r: Result<u64, Error>)
        ensures
            match r {
                Ok(v) => parse_typed(old(self)@, major) == Ok::<_, Error>((v, final(self)@)),
                Err(e) => parse_typed(old(self)@, major) == Err::<(u64, Seq<u8>), _>(e),
            },
    {
        match self.head() {
            Ok((m, v)) => if m == major {
                Ok(v)
            } else {
                Err(Error::UnexpectedType)
            },
            Err(e) => Err(e),
        }
    }

    /// Reads an unsigned integer.
    pub fn uint(&mut self) -> (r: Result<u64, Error>)
        ensures
            match r {
                Ok(v) => parse_uint(old(self)@) == Ok::<_, Error>((v, final(self)@)),
                Err(e) => parse_uint(old(self)@) == Err::<(u64, Seq<u8>), _>(e),
            },
    {
        self.typed(MAJOR_UINT)
    }

    /// Reads the header of an array and returns its element count.
    pub fn array_start(&mut self) -> (r: Result<u64, Error>)
        ensures
            match r {
                Ok(v) => parse_array(old(self)@) == Ok::<_, Error>((v, final(self)@)),
                Err(e) => parse_array(old(self)@) == Err::<(u64, Seq<u8>), _>(e),
            },
    {
        self.typed(MAJOR_ARRAY)
    }

    /// Reads the header of a map and returns its entry count.
    pub fn map_start(&mut self) -> (r: Result<u64, Error>)
        ensures
            match r {
                Ok(v) => parse_map(old(self)@) == Ok::<_, Error>((v, final(self)@)),
                Err(e) => parse_map(old(self)@) == Err::<(u64, Seq<u8>), _>(e),
            },
    {
        self.typed(MAJOR_MAP)
    }

    /// Reads a tag.
    pub fn tag(&mut self) -> (r: Result<u64, Error>)
        ensures
            match r {
                Ok(v) => parse_tag(old(self)@) == Ok::<_, Error>((v, final(self)@)),
                Err(e) => parse_tag(old(self)@) == Err::<(u64, Seq<u8>), _>(e),
            },
    {
        self.typed(MAJOR_TAG)
    }

    /// Reads a byte string.
    pub fn bs(&mut self) -> (r: Result<Vec<u8>, Error>)
        ensures
            match r {
                Ok(v) => parse_bs(old(self)@) == Ok::<_, Error>((v@, final(self)@)),
                Err(e) => parse_bs(old(self)@) == Err::<(Seq<u8>, Seq<u8>), _>(e),
            },
    {
        let n = match self.typed(MAJOR_BYTES) {
            Ok(n) => n,
            Err(e) => {
                return Err(e);
            },
        };
        proof {
            use_type_invariant(&*self);
        }
        let left = self.buf.len() - self.pos;
        if n > left as u64 {
            return Err(Error::UnexpectedEnd);
        }
        let ghost before = self@;
        let mut out: Vec<u8> = Vec::new();
        let end: usize = self.pos + n as usize;
        let start: usize = self.pos;
        let mut i: usize = start;
        while i < end
            invariant
                start <= i <= end <= self.buf.len(),
                start == self.pos,
                self@ == before,
                out@ == before.take(i - start),
            decreases end - i,
        {
            out.push(self.buf[i]);
            proof {
                assert(out@ =~= before.take(i + 1 - start));
            }
            i = i + 1;
        }
        self.pos = end;
        proof {
            assert(self@ =~= before.skip(n as int));
        }
        Ok(out)
    }
}

} // verus!
