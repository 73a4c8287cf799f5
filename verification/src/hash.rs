//! Fixed-size digests, tagged with the kind of value they identify.

use vstd::prelude::*;
use vstd::string::StringExecFns;
use std::marker::PhantomData;
use crate::cbor::{enc_bs, parse_bs, lemma_parse_bs};
use crate::decode::Decoder;
use crate::digest::{blake2b_256, blake2b_256_exec};
use crate::encode::bs;
use crate::error::Error;

verus! {

/// A BLAKE2b-256 digest of a value of kind `T`.
///
/// The tag `T` lives in the type alone: the bytes decide equality, order,
/// encoding and rendering.
#[derive(Debug, Eq, Ord)]
pub struct Hash<T> {
    digest: [u8; 32],
    _phantom: PhantomData<T>,
}

impl<T> Clone for Hash<T> {
    fn clone(&self) -> (h: Self)
        ensures
            h == *self,
    {
        Hash { digest: self.digest, _phantom: PhantomData }
    }
}

impl<T> Copy for Hash<T> {
}

impl<T> PartialEq for Hash<T> {
    /// Two digests are equal when their bytes are.
    fn eq(&self, other: &Self) -> (r: bool) {
        let mut i: usize = 0;
        while i < 32
            invariant
                i <= 32,
                forall|j: int| 0 <= j < i ==> self.digest@[j] == other.digest@[j],
            decreases 32 - i,
        {
            if self.digest[i] != other.digest[i] {
                return false;
            }
            i = i + 1;
        }
        proof {
            assert(self.digest@ =~= other.digest@);
        }
        true
    }
}

impl<T> vstd::std_specs::cmp::PartialEqSpecImpl for Hash<T> {
    open spec fn obeys_eq_spec() -> bool {
        true
    }

    open spec fn eq_spec(&self, other: &Self) -> bool {
        self@ == other@
    }
}

impl<T> View for Hash<T> {
    type V = Seq<u8>;

    /// The 32 bytes of the digest.
    closed spec fn view(&self) -> Seq<u8> {
        self.digest@
    }
}

/// `a` comes before `b` byte by byte: at the first place where they
/// differ, `a` holds the smaller byte.
pub open spec fn bytes_before(a: Seq<u8>, b: Seq<u8>) -> bool {
    exists|i: int|
        0 <= i < a.len() && i < b.len() && #[trigger] a[i] < b[i] && a.take(i) == b.take(i)
}

impl<T> PartialOrd for Hash<T> {
    /// Digests are ordered by their bytes, first byte first.
    fn partial_cmp(&self, other: &Self) -> (r: Option<std::cmp::Ordering>) {
        let mut i: usize = 0;
        while i < 32
            invariant
                i <= 32,
                forall|j: int| 0 <= j < i ==> self.digest@[j] == other.digest@[j],
            decreases 32 - i,
        {
            let a = self.digest[i];
            let b = other.digest[i];
            if a != b {
                proof {
                    lemma_first_difference(self@, other@, i);
                    lemma_first_difference(other@, self@, i);
                }
                if a < b {
                    return Some(std::cmp::Ordering::Less);
                } else {
                    return Some(std::cmp::Ordering::Greater);
                }
            }
            i = i + 1;
        }
        proof {
            assert(self.digest@ =~= other.digest@);
        }
        Some(std::cmp::Ordering::Equal)
    }
}

impl<T> vstd::std_specs::cmp::PartialOrdSpecImpl for Hash<T> {
    open spec fn obeys_partial_cmp_spec() -> bool {
        true
    }

    open spec fn partial_cmp_spec(&self, other: &Self) -> Option<std::cmp::Ordering> {
        if self@ == other@ {
            Some(std::cmp::Ordering::Equal)
        } else if bytes_before(self@, other@) {
            Some(std::cmp::Ordering::Less)
        } else {
            Some(std::cmp::Ordering::Greater)
        }
    }
}

/// Where two sequences first differ decides which comes before the other.
pub proof fn lemma_first_difference(a: Seq<u8>, b: Seq<u8>, i: usize)
    requires
        i < a.len(),
        i < b.len(),
        a[i as int] != b[i as int],
        forall|j: int| 0 <= j < i ==> a[j] == b[j],
    ensures
        a != b,
        bytes_before(a, b) <==> a[i as int] < b[i as int],
{
    let k = i as int;
    assert(a.take(k) =~= b.take(k));
    if bytes_before(a, b) {
        let w = choose|w: int|
            0 <= w < a.len() && w < b.len() && #[trigger] a[w] < b[w] && a.take(w) == b.take(w);
        if w > k {
            assert(a.take(w)[k] == b.take(w)[k]);
        }
        if w < k {
            assert(a[w] == b[w]);
        }
    }
}

/// The lowercase hexadecimal digit for `n < 16`.
pub open spec fn hex_digit(n: u8) -> char {
    if n == 0 {
        '0'
    } else if n == 1 {
        '1'
    } else if n == 2 {
        '2'
    } else if n == 3 {
        '3'
    } else if n == 4 {
        '4'
    } else if n == 5 {
        '5'
    } else if n == 6 {
        '6'
    } else if n == 7 {
        '7'
    } else if n == 8 {
        '8'
    } else if n == 9 {
        '9'
    } else if n == 10 {
        'a'
    } else if n == 11 {
        'b'
    } else if n == 12 {
        'c'
    } else if n == 13 {
        'd'
    } else if n == 14 {
        'e'
    } else {
        'f'
    }
}

/// Two lowercase hexadecimal digits for each byte of `s`, high digit first.
pub open spec fn hex(s: Seq<u8>) -> Seq<char>
    decreases s.len(),
{
    if s.len() == 0 {
        Seq::empty()
    } else {
        hex(s.drop_last()).push(hex_digit(s.last() / 16)).push(hex_digit(s.last() % 16))
    }
}

/// Reads a byte string and insists that it holds exactly 32 bytes.
pub open spec fn parse_hash(s: Seq<u8>) -> Result<(Seq<u8>, Seq<u8>), Error> {
    match parse_bs(s) {
        Ok((b, rest)) => if b.len() == 32 {
            Ok((b, rest))
        } else {
            Err(Error::InvalidLength)
        },
        Err(e) => Err(e),
    }
}

/// The digit for `n` as a string of one character.
fn digit_str(n: u8) -> (r: &'static str)
    requires
        n < 16,
    ensures
        r@ == seq![hex_digit(n)],
{
    proof {
        reveal_strlit("0");
        reveal_strlit("1");
        reveal_strlit("2");
        reveal_strlit("3");
        reveal_strlit("4");
        reveal_strlit("5");
        reveal_strlit("6");
        reveal_strlit("7");
        reveal_strlit("8");
        reveal_strlit("9");
        reveal_strlit("a");
        reveal_strlit("b");
        reveal_strlit("c");
        reveal_strlit("d");
        reveal_strlit("e");
        reveal_strlit("f");
    }
    let r = if n == 0 {
        "0"
    } else if n == 1 {
        "1"
    } else if n == 2 {
        "2"
    } else if n == 3 {
        "3"
    } else if n == 4 {
        "4"
    } else if n == 5 {
        "5"
    } else if n == 6 {
        "6"
    } else if n == 7 {
        "7"
    } else if n == 8 {
        "8"
    } else if n == 9 {
        "9"
    } else if n == 10 {
        "a"
    } else if n == 11 {
        "b"
    } else if n == 12 {
        "c"
    } else if n == 13 {
        "d"
    } else if n == 14 {
        "e"
    } else {
        "f"
    };
    proof {
        assert(r@ =~= seq![hex_digit(n)]);
    }
    r
}

impl<T> Hash<T> {
    /// The digest of `buf`.
    pub fn new(buf: &[u8]) -> (h: Self)
        ensures
            h@ == blake2b_256(buf@),
    {
        Self::from_bytes(blake2b_256_exec(buf))
    }

    /// Wraps a digest computed elsewhere.
    pub fn from_bytes(bytes: [u8; 32]) -> (h: Self)
        ensures
            h@ == bytes@,
    {
        Hash { digest: bytes, _phantom: PhantomData }
    }

    /// Wraps the digest held in `bytes`, if there are exactly 32 of them.
    pub fn from_slice(bytes: &[u8]) -> (r: Option<Self>)
        ensures
            r is Some <==> bytes@.len() == 32,
            r matches Some(h) ==> h@ == bytes@,
    {
        if bytes.len() != 32 {
            return None;
        }
        let mut buf = [0u8;32];
        let mut i: usize = 0;
        while i < 32
            invariant
                i <= 32,
                bytes@.len() == 32,
                forall|j: int| 0 <= j < i ==> buf@[j] == bytes@[j],
            decreases 32 - i,
        {
            buf[i] = bytes[i];
            i = i + 1;
        }
        proof {
            assert(buf@ =~= bytes@);
        }
        Some(Self::from_bytes(buf))
    }

    /// The bytes of the digest.
    pub fn as_bytes(&self) -> (b: &[u8; 32])
        ensures
            b@ == self@,
    {
        &self.digest
    }

    /// The digest in lowercase hexadecimal, two digits a byte, no separators.
    pub fn to_hex(&self) -> (s: String)
        ensures
            s@ == hex(self@),
    {
        let mut s = String::new();
        let mut i: usize = 0;
        while i < 32
            invariant
                i <= 32,
                s@ == hex(self@.take(i as int)),
            decreases 32 - i,
        {
            let b = self.digest[i];
            proof {
                assert(self@.take(i + 1).drop_last() =~= self@.take(i as int));
            }
            s.append(digit_str(b / 16));
            s.append(digit_str(b % 16));
            proof {
                assert(s@ =~= hex(self@.take(i + 1)));
            }
            i = i + 1;
        }
        proof {
            assert(self@.take(32) =~= self@);
        }
        s
    }

    /// Appends the digest as a byte string.
    pub fn encode(&self, buf: &mut Vec<u8>)
        ensures
            final(buf)@ == old(buf)@ + enc_bs(self@),
    {
        bs(self.digest.as_slice(), buf)
    }

    /// Reads a digest: a byte string of exactly 32 bytes.
    pub fn decode(decoder: &mut Decoder) -> (r: Result<Self, Error>)
        ensures
            match r {
                Ok(h) => parse_hash(old(decoder)@) == Ok::<_, Error>((h@, final(decoder)@)),
                Err(e) => parse_hash(old(decoder)@) == Err::<(Seq<u8>, Seq<u8>), _>(e),
            },
    {
        let bytes = match decoder.bs() {
            Ok(b) => b,
            Err(e) => {
                return Err(e);
            },
        };
        match Self::from_slice(bytes.as_slice()) {
            None => Err(Error::InvalidLength),
            Some(v) => Ok(v),
        }
    }

    /// Every digest has exactly 32 bytes.
    pub proof fn lemma_len(self)
        ensures
            self@.len() == 32,
    {
    }
}

/// Two digests of the same bytes are the same digest, whatever they are
/// digests of.
pub proof fn lemma_hash_eq<T>(a: Hash<T>, b: Hash<T>)
    requires
        a@ == b@,
    ensures
        a == b,
{
    assert(a.digest =~= b.digest);
}

/// Each byte renders as two digits.
pub proof fn lemma_hex_len(s: Seq<u8>)
    ensures
        hex(s).len() == 2 * s.len(),
    decreases s.len(),
{
    if s.len() > 0 {
        lemma_hex_len(s.drop_last());
    }
}

/// Bytes that are all zero render as zeros only.
pub proof fn lemma_hex_of_zeros(s: Seq<u8>)
    requires
        forall|i: int| 0 <= i < s.len() ==> s[i] == 0,
    ensures
        hex(s).len() == 2 * s.len(),
        forall|j: int| 0 <= j < hex(s).len() ==> hex(s)[j] == '0',
    decreases s.len(),
{
    lemma_hex_len(s);
    if s.len() > 0 {
        lemma_hex_of_zeros(s.drop_last());
        lemma_hex_len(s.drop_last());
    }
}

/// A byte string of any other length than 32 is refused as a digest.
pub proof fn lemma_hash_wrong_length(b: Seq<u8>, rest: Seq<u8>)
    requires
        b.len() <= u64::MAX,
        b.len() != 32,
    ensures
        parse_hash(enc_bs(b) + rest) == Err::<(Seq<u8>, Seq<u8>), _>(Error::InvalidLength),
{
    lemma_parse_bs(b, rest);
}

/// Decoding an encoded digest gives back the digest and what followed it.
pub proof fn lemma_hash_round_trip<T>(h: Hash<T>, rest: Seq<u8>)
    ensures
        parse_hash(enc_bs(h@) + rest) == Ok::<_, Error>((h@, rest)),
{
    lemma_parse_bs(h@, rest);
}

} // verus!
