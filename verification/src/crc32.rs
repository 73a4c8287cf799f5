//! CRC-32 (IEEE 802.3, reflected polynomial `0xEDB88320`).

use vstd::prelude::*;

verus! {

/// One bit of the reflected division.
pub open spec fn step(c: u32) -> u32 {
    if c & 1u32 == 1u32 {
        (c >> 1u32) ^ 0xEDB8_8320u32
    } else {
        c >> 1u32
    }
}

/// The register after the byte `b` has been fed into it.
pub open spec fn feed(c: u32, b: u8) -> u32 {
    step(step(step(step(step(step(step(step(c ^ (b as u32)))))))))
}

/// The register after all of `s` has been fed into it, first byte first.
pub open spec fn update(c: u32, s: Seq<u8>) -> u32
    decreases s.len(),
{
    if s.len() == 0 {
        c
    } else {
        feed(update(c, s.drop_last()), s.last())
    }
}

/// The checksum of `s`.
pub open spec fn checksum(s: Seq<u8>) -> u32 {
    update(0xFFFF_FFFFu32, s) ^ 0xFFFF_FFFFu32
}

/// Computes `step`.
fn step_exec(c: u32) -> (r: u32)
    ensures
        r == step(c),
{
    if c & 1u32 == 1u32 {
        (c >> 1u32) ^ 0xEDB8_8320u32
    } else {
        c >> 1u32
    }
}

/// Computes `feed`.
fn feed_exec(c: u32, b: u8) -> (r: u32)
    ensures
        r == feed(c, b),
{
    let mut x: u32 = c ^ (b as u32);
    x = step_exec(x);
    x = step_exec(x);
    x = step_exec(x);
    x = step_exec(x);
    x = step_exec(x);
    x = step_exec(x);
    x = step_exec(x);
    x = step_exec(x);
    x
}

/// Computes the CRC-32 checksum of `bytes`.
pub fn crc32(bytes: &[u8]) -> (r: u32)
    ensures
        r == checksum(bytes@),
{
    let mut c: u32 = 0xFFFF_FFFFu32;
    let mut i: usize = 0;
    while i < bytes.len()
        invariant
            i <= bytes.len(),
            c == update(0xFFFF_FFFFu32, bytes@.take(i as int)),
        decreases bytes.len() - i,
    {
        proof {
            assert(bytes@.take(i + 1).drop_last() =~= bytes@.take(i as int));
        }
        c = feed_exec(c, bytes[i]);
        i = i + 1;
    }
    proof {
        assert(bytes@.take(i as int) =~= bytes@);
    }
    c ^ 0xFFFF_FFFFu32
}

} // verus!
