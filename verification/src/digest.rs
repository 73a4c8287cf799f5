//! The 256-bit digest function behind every identifier.

use vstd::prelude::*;

verus! {

/// The BLAKE2b digest of `input` at an output length of 32 bytes, with no key.
pub uninterp spec fn blake2b_256(input: Seq<u8>) -> Seq<u8>;

/// Calls `crypto::blake2b::Blake2b::blake2b` with a 32-byte output buffer
/// and an empty key.
///
/// Trusted: the 32 bytes that come back are the unkeyed BLAKE2b digest of
/// `input` at that output length, and depend on the bytes of `input` alone.
/// With the empty key the function builds its state as `Blake2b::new(32)`
/// does, feeds it `input` and finalises it; it panics only on an output
/// length outside 1 to 64.
#[verifier::external_body]
pub(crate) fn blake2b_256_exec(input: &[u8]) -> (out: [u8; 32])
    ensures
        out@ == blake2b_256(input@),
{
    let mut out = [0u8; 32];
    crypto::blake2b::Blake2b::blake2b(&mut out, input, &[]);
    out
}

} // verus!
