//! Writers: each appends one item to the end of a buffer.

use vstd::prelude::*;
use crate::cbor::{
    be2, be4, be8, head, enc_uint, enc_array, enc_map, enc_tag, enc_bs, MAJOR_UINT, MAJOR_BYTES,
    MAJOR_ARRAY, MAJOR_MAP, MAJOR_TAG,
};

verus! {

fn push_be2(v: u64, buf: &mut Vec<u8>)
    requires
        v < 0x1_0000,
    ensures
        final(buf)@ == old(buf)@ + be2(v as int),
{
    buf.push((v / 256 % 256) as u8);
    buf.push((v % 256) as u8);
    proof {
        assert(buf@ =~= old(buf)@ + be2(v as int));
    }
}

fn push_be4(v: u64, buf: &mut Vec<u8>)
    requires
        v < 0x1_0000_0000,
    ensures
        final(buf)@ == old(buf)@ + be4(v as int),
{
    push_be2(v / 0x1_0000 % 0x1_0000, buf);
    push_be2(v % 0x1_0000, buf);
    proof {
        assert(buf@ =~= old(buf)@ + be4(v as int));
    }
}

fn push_be8(v: u64, buf: &mut Vec<u8>)
    ensures
        final(buf)@ == old(buf)@ + be8(v as int),
{
    push_be4(v / 0x1_0000_0000 % 0x1_0000_0000, buf);
    push_be4(v % 0x1_0000_0000, buf);
    proof {
        assert(buf@ =~= old(buf)@ + be8(v as int));
    }
}

/// Appends the shortest header with the given major type and argument.
pub fn write_head(major: u8, v: u64, buf: &mut Vec<u8>)
    requires
        major < 8,
    ensures
        final(buf)@ == old(buf)@ + head(major, v),
{
    let m: u8 = major * 32;
    if v < 24 {
        buf.push(m + (v as u8));
    } else if v < 0x100 {
        buf.push(m + 24);
        buf.push(v as u8);
    } else if v < 0x1_0000 {
        buf.push(m + 25);
        push_be2(v, buf);
    } else if v < 0x1_0000_0000 {
        buf.push(m + 26);
        push_be4(v, buf);
    } else {
        buf.push(m + 27);
        push_be8(v, buf);
    }
    proof {
        reveal(head);
        assert(buf@ =~= old(buf)@ + head(major, v));
    }
}

/// Appends an unsigned integer.
pub fn uint(v: u64, buf: &mut Vec<u8>)
    ensures
        final(buf)@ == old(buf)@ + enc_uint(v),
{
    write_head(MAJOR_UINT, v, buf);
}

/// Appends the header of an array of `n` elements.
pub fn array_start(n: u64, buf: &mut Vec<u8>)
    ensures
        final(buf)@ == old(buf)@ + enc_array(n),
{
    write_head(MAJOR_ARRAY, n, buf);
}

/// Appends the header of a map of `n` entries.
pub fn map_start(n: u64, buf: &mut Vec<u8>)
    ensures
        final(buf)@ == old(buf)@ + enc_map(n),
{
    write_head(MAJOR_MAP, n, buf);
}

/// Appends a tag.
pub fn tag(t: u64, buf: &mut Vec<u8>)
    ensures
        final(buf)@ == old(buf)@ + enc_tag(t),
{
    write_head(MAJOR_TAG, t, buf);
}

/// Appends a byte string.
pub fn bs(bytes: &[u8], buf: &mut Vec<u8>)
    ensures
        final(buf)@ == old(buf)@ + enc_bs(bytes@),
{
    write_head(MAJOR_BYTES, bytes.len() as u64, buf);
    buf.extend_from_slice(bytes);
    proof {
        assert(buf@ =~= old(buf)@ + enc_bs(bytes@));
    }
}

} // verus!
