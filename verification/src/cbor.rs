//! The CBOR items this format is built from: unsigned integers, byte
//! strings, and the headers of arrays, maps and tags.
//!
//! Writers always emit the shortest header.  The reader accepts every
//! definite-length header, shortest or not.

use vstd::prelude::*;
use crate::error::Error;

verus! {

/// The major types that this format uses.
pub const MAJOR_UINT: u8 = 0;
pub const MAJOR_BYTES: u8 = 2;
pub const MAJOR_ARRAY: u8 = 4;
pub const MAJOR_MAP: u8 = 5;
pub const MAJOR_TAG: u8 = 6;

/// The two big-endian bytes of `v`, for `v < 2^16`.
pub open spec fn be2(v: int) -> Seq<u8> {
    seq![(v / 256 % 256) as u8, (v % 256) as u8]
}

/// The four big-endian bytes of `v`, for `v < 2^32`.
pub open spec fn be4(v: int) -> Seq<u8> {
    be2(v / 0x1_0000 % 0x1_0000) + be2(v % 0x1_0000)
}

/// The eight big-endian bytes of `v`, for `v < 2^64`.
pub open spec fn be8(v: int) -> Seq<u8> {
    be4(v / 0x1_0000_0000 % 0x1_0000_0000) + be4(v % 0x1_0000_0000)
}

/// The number that the bytes of `s` from `at` spell, `n` of them, big-endian.
pub open spec fn be_value(s: Seq<u8>, at: int, n: nat) -> int
    decreases n,
{
    if n == 0 {
        0
    } else {
        be_value(s, at, (n - 1) as nat) * 256 + s[at + n - 1] as int
    }
}

/// 256 to the power `n`.
pub open spec fn pow256(n: nat) -> int
    decreases n,
{
    if n == 0 {
        1
    } else {
        pow256((n - 1) as nat) * 256
    }
}

/// The first eight powers of 256 fit in 64 bits.
pub proof fn lemma_pow256(n: nat)
    requires
        n < 8,
    ensures
        0 < pow256(n),
        pow256(n) * 256 == pow256(n + 1),
        pow256(n + 1) <= 0x1_0000_0000_0000_0000,
{
    reveal_with_fuel(pow256, 10);
}

/// The header of an item: the major type in the top three bits of the first
/// byte, and the argument `v` in the shortest of the five forms.
#[verifier::opaque]
pub open spec fn head(major: u8, v: u64) -> Seq<u8> {
    let m = major as int * 32;
    if v < 24 {
        seq![(m + v) as u8]
    } else if v < 0x100 {
        seq![(m + 24) as u8, v as u8]
    } else if v < 0x1_0000 {
        seq![(m + 25) as u8] + be2(v as int)
    } else if v < 0x1_0000_0000 {
        seq![(m + 26) as u8] + be4(v as int)
    } else {
        seq![(m + 27) as u8] + be8(v as int)
    }
}

/// An unsigned integer.
pub open spec fn enc_uint(v: u64) -> Seq<u8> {
    head(MAJOR_UINT, v)
}

/// The header of an array of `n` elements.
pub open spec fn enc_array(n: u64) -> Seq<u8> {
    head(MAJOR_ARRAY, n)
}

/// The header of a map of `n` entries.
pub open spec fn enc_map(n: u64) -> Seq<u8> {
    head(MAJOR_MAP, n)
}

/// A tag.
pub open spec fn enc_tag(t: u64) -> Seq<u8> {
    head(MAJOR_TAG, t)
}

/// A byte string: its length as the header's argument, then its bytes.
pub open spec fn enc_bs(b: Seq<u8>) -> Seq<u8> {
    head(MAJOR_BYTES, b.len() as u64) + b
}

/// How many bytes follow the first byte of a header with the low bits `info`.
pub open spec fn arg_len(info: u8) -> nat {
    if info < 24 {
        0
    } else if info == 24 {
        1
    } else if info == 25 {
        2
    } else if info == 26 {
        4
    } else {
        8
    }
}

/// Reads one header: the major type, the argument, and what follows.
#[verifier::opaque]
pub open spec fn parse_head(s: Seq<u8>) -> Result<(u8, u64, Seq<u8>), Error> {
    if s.len() == 0 {
        Err(Error::UnexpectedEnd)
    } else {
        let major = s[0] / 32;
        let info = s[0] % 32;
        let n = arg_len(info);
        if info >= 28 {
            Err(Error::UnexpectedType)
        } else if s.len() < 1 + n {
            Err(Error::UnexpectedEnd)
        } else if info < 24 {
            Ok((major, info as u64, s.skip(1)))
        } else {
            Ok((major, be_value(s, 1, n) as u64, s.skip(1 + n as int)))
        }
    }
}

/// Reads one header and insists on its major type.
pub open spec fn parse_typed(s: Seq<u8>, major: u8) -> Result<(u64, Seq<u8>), Error> {
    match parse_head(s) {
        Ok((m, v, rest)) => if m == major {
            Ok((v, rest))
        } else {
            Err(Error::UnexpectedType)
        },
        Err(e) => Err(e),
    }
}

/// Reads an unsigned integer.
pub open spec fn parse_uint(s: Seq<u8>) -> Result<(u64, Seq<u8>), Error> {
    parse_typed(s, MAJOR_UINT)
}

/// Reads the header of an array: its element count.
pub open spec fn parse_array(s: Seq<u8>) -> Result<(u64, Seq<u8>), Error> {
    parse_typed(s, MAJOR_ARRAY)
}

/// Reads the header of a map: its entry count.
pub open spec fn parse_map(s: Seq<u8>) -> Result<(u64, Seq<u8>), Error> {
    parse_typed(s, MAJOR_MAP)
}

/// Reads a tag.
pub open spec fn parse_tag(s: Seq<u8>) -> Result<(u64, Seq<u8>), Error> {
    parse_typed(s, MAJOR_TAG)
}

/// Reads a byte string: the length, then as many bytes.
pub open spec fn parse_bs(s: Seq<u8>) -> Result<(Seq<u8>, Seq<u8>), Error> {
    match parse_typed(s, MAJOR_BYTES) {
        Ok((n, rest)) => if n <= rest.len() {
            Ok((rest.take(n as int), rest.skip(n as int)))
        } else {
            Err(Error::UnexpectedEnd)
        },
        Err(e) => Err(e),
    }
}

/// A header is never empty and at most nine bytes long.
pub proof fn lemma_head_len(major: u8, v: u64)
    ensures
        1 <= head(major, v).len() <= 9,
{
    reveal(head);
}

/// Two more bytes shift what was read by sixteen bits.
proof fn lemma_split2(s: Seq<u8>, at: int, n: nat)
    ensures
        be_value(s, at, n + 2) == be_value(s, at, n) * 0x1_0000 + be_value(s, at + n, 2),
{
    reveal_with_fuel(be_value, 3);
}

/// Four more bytes shift what was read by thirty-two bits.
proof fn lemma_split4(s: Seq<u8>, at: int, n: nat)
    ensures
        be_value(s, at, n + 4) == be_value(s, at, n) * 0x1_0000_0000 + be_value(s, at + n, 4),
{
    reveal_with_fuel(be_value, 5);
}

/// The two bytes of `v` spell `v`.
proof fn lemma_be2_value(s: Seq<u8>, at: int, v: int)
    requires
        0 <= v < 0x1_0000,
        s[at] == be2(v)[0],
        s[at + 1] == be2(v)[1],
    ensures
        be_value(s, at, 2) == v,
{
    reveal_with_fuel(be_value, 3);
}

/// The four bytes of `v` spell `v`.
proof fn lemma_be4_value(s: Seq<u8>, at: int, v: int)
    requires
        0 <= v < 0x1_0000_0000,
        forall|i: int| 0 <= i < 4 ==> s[at + i] == #[trigger] be4(v)[i],
    ensures
        be_value(s, at, 4) == v,
{
    let hi = v / 0x1_0000 % 0x1_0000;
    let lo = v % 0x1_0000;
    assert(be4(v)[0] == be2(hi)[0]);
    assert(be4(v)[1] == be2(hi)[1]);
    assert(be4(v)[2] == be2(lo)[0]);
    assert(be4(v)[3] == be2(lo)[1]);
    lemma_be2_value(s, at, hi);
    lemma_be2_value(s, at + 2, lo);
    lemma_split2(s, at, 2);
}

/// The eight bytes of `v` spell `v`.
proof fn lemma_be8_value(s: Seq<u8>, at: int, v: int)
    requires
        0 <= v < 0x1_0000_0000_0000_0000,
        forall|i: int| 0 <= i < 8 ==> s[at + i] == #[trigger] be8(v)[i],
    ensures
        be_value(s, at, 8) == v,
{
    let hi = v / 0x1_0000_0000 % 0x1_0000_0000;
    let lo = v % 0x1_0000_0000;
    assert(be4(hi).len() == 4 && be4(lo).len() == 4);
    assert forall|i: int| 0 <= i < 4 implies s[at + i] == #[trigger] be4(hi)[i] by {
        assert(be8(v)[i] == be4(hi)[i]);
    }
    assert forall|i: int| 0 <= i < 4 implies s[at + 4 + i] == #[trigger] be4(lo)[i] by {
        assert(be8(v)[i + 4] == be4(lo)[i]);
    }
    lemma_be4_value(s, at, hi);
    lemma_be4_value(s, at + 4, lo);
    lemma_split4(s, at, 4);
}

/// Reading a written header gives back its major type and argument, and
/// leaves exactly what followed it.
pub proof fn lemma_parse_head(major: u8, v: u64, rest: Seq<u8>)
    requires
        major < 8,
    ensures
        parse_head(head(major, v) + rest) == Ok::<_, Error>((major, v, rest)),
{
    reveal(head);
    reveal(parse_head);
    let h = head(major, v);
    let s = h + rest;
    assert(s.skip(h.len() as int) =~= rest);
    assert(s[0] == h[0]);
    if v < 24 {
    } else if v < 0x100 {
        assert(s[1] == h[1]);
        reveal_with_fuel(be_value, 2);
    } else if v < 0x1_0000 {
        assert(s[1] == h[1] && s[2] == h[2]);
        lemma_be2_value(s, 1, v as int);
    } else if v < 0x1_0000_0000 {
        assert(be4(v as int).len() == 4);
        assert forall|i: int| 0 <= i < 4 implies s[1 + i] == #[trigger] be4(v as int)[i] by {
            assert(s[1 + i] == h[1 + i]);
        }
        lemma_be4_value(s, 1, v as int);
    } else {
        assert(be8(v as int).len() == 8);
        assert forall|i: int| 0 <= i < 8 implies s[1 + i] == #[trigger] be8(v as int)[i] by {
            assert(s[1 + i] == h[1 + i]);
        }
        lemma_be8_value(s, 1, v as int);
    }
}

/// Reading a written header of the major type asked for.
pub proof fn lemma_parse_typed(major: u8, v: u64, rest: Seq<u8>)
    requires
        major < 8,
    ensures
        parse_typed(head(major, v) + rest, major) == Ok::<_, Error>((v, rest)),
{
    lemma_parse_head(major, v, rest);
}

/// Reading a written byte string gives back its bytes.
pub proof fn lemma_parse_bs(b: Seq<u8>, rest: Seq<u8>)
    requires
        b.len() <= u64::MAX,
    ensures
        parse_bs(enc_bs(b) + rest) == Ok::<_, Error>((b, rest)),
{
    let h = head(MAJOR_BYTES, b.len() as u64);
    assert(enc_bs(b) + rest =~= h + (b + rest));
    lemma_parse_head(MAJOR_BYTES, b.len() as u64, b + rest);
    assert((b + rest).take(b.len() as int) =~= b);
    assert((b + rest).skip(b.len() as int) =~= rest);
}

} // verus!
