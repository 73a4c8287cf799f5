//! Transaction outputs, and the checksum wrapping their addresses travel in.

use vstd::prelude::*;
use crate::address::{AddrModel, ExtendedAddr, enc_addr, parse_addr, lemma_addr_round_trip};
use crate::cbor::{
    enc_array, enc_bs, enc_tag, enc_uint, parse_array, parse_bs, parse_tag, parse_uint,
    lemma_parse_bs, lemma_parse_typed, MAJOR_ARRAY, MAJOR_TAG, MAJOR_UINT,
};
use crate::coin::{Coin, parse_coin, MAX_COIN};
use crate::crc32::{checksum, crc32};
use crate::decode::Decoder;
use crate::encode::{array_start, bs, tag, uint};
use crate::error::Error;

verus! {

/// The tag that marks a byte string as holding an encoded item.
pub const TAG_WRAPPED: u64 = 24;

/// A payload with its checksum: an array of two, the tagged payload as a
/// byte string, then the CRC-32 of the payload's bytes.
pub open spec fn enc_with_crc32(payload: Seq<u8>) -> Seq<u8> {
    enc_array(2) + enc_tag(TAG_WRAPPED) + enc_bs(payload) + enc_uint(checksum(payload) as u64)
}

/// Unwraps a payload and verifies its checksum.
pub open spec fn parse_with_crc32(s: Seq<u8>) -> Result<(Seq<u8>, Seq<u8>), Error> {
    match parse_array(s) {
        Err(e) => Err(e),
        Ok((n, r0)) => if n != 2 {
            Err(Error::MalformedStructure)
        } else {
            match parse_tag(r0) {
                Err(e) => Err(e),
                Ok((t, r1)) => if t != TAG_WRAPPED {
                    Err(Error::Unsupported)
                } else {
                    match parse_bs(r1) {
                        Err(e) => Err(e),
                        Ok((payload, r2)) => match parse_uint(r2) {
                            Err(e) => Err(e),
                            Ok((c, r3)) => if c == checksum(payload) as u64 {
                                Ok((payload, r3))
                            } else {
                                Err(Error::ChecksumMismatch)
                            },
                        },
                    }
                },
            }
        },
    }
}

/// Appends `payload` wrapped with its checksum.
pub fn encode_with_crc32(payload: &[u8], buf: &mut Vec<u8>)
    ensures
        final(buf)@ == old(buf)@ + enc_with_crc32(payload@),
{
    array_start(2, buf);
    tag(TAG_WRAPPED, buf);
    bs(payload, buf);
    uint(crc32(payload) as u64, buf);
    proof {
        assert(buf@ =~= old(buf)@ + enc_with_crc32(payload@));
    }
}

/// Reads a wrapped payload and verifies its checksum.
pub fn decode_with_crc32(decoder: &mut Decoder) -> (r: Result<Vec<u8>, Error>)
    ensures
        match r {
            Ok(p) => parse_with_crc32(old(decoder)@) == Ok::<_, Error>((p@, final(decoder)@)),
            Err(e) => parse_with_crc32(old(decoder)@) == Err::<(Seq<u8>, Seq<u8>), _>(e),
        },
{
    let n = match decoder.array_start() {
        Ok(n) => n,
        Err(e) => {
            return Err(e);
        },
    };
    if n != 2 {
        return Err(Error::MalformedStructure);
    }
    let t = match decoder.tag() {
        Ok(t) => t,
        Err(e) => {
            return Err(e);
        },
    };
    if t != TAG_WRAPPED {
        return Err(Error::Unsupported);
    }
    let payload = match decoder.bs() {
        Ok(b) => b,
        Err(e) => {
            return Err(e);
        },
    };
    let c = match decoder.uint() {
        Ok(c) => c,
        Err(e) => {
            return Err(e);
        },
    };
    if c == crc32(payload.as_slice()) as u64 {
        Ok(payload)
    } else {
        Err(Error::ChecksumMismatch)
    }
}

/// Unwrapping a wrapped payload gives the payload back.
pub proof fn lemma_crc32_round_trip(payload: Seq<u8>, rest: Seq<u8>)
    requires
        payload.len() <= u64::MAX,
    ensures
        parse_with_crc32(enc_with_crc32(payload) + rest) == Ok::<_, Error>((payload, rest)),
{
    let c = enc_uint(checksum(payload) as u64);
    let b = enc_bs(payload);
    let t = enc_tag(TAG_WRAPPED);
    assert(enc_with_crc32(payload) + rest =~= enc_array(2) + (t + (b + (c + rest))));
    lemma_parse_typed(MAJOR_ARRAY, 2, t + (b + (c + rest)));
    lemma_parse_typed(MAJOR_TAG, TAG_WRAPPED, b + (c + rest));
    lemma_parse_bs(payload, c + rest);
    lemma_parse_typed(MAJOR_UINT, checksum(payload) as u64, rest);
}

/// One output of a transaction: where the coin goes, and how much.
#[derive(Debug, PartialEq, Eq, Clone)]
pub struct TxOut {
    pub address: ExtendedAddr,
    pub value: Coin,
}

/// An output as a mathematical value.
pub struct TxOutModel {
    pub address: AddrModel,
    pub value: u64,
}

impl View for TxOut {
    type V = TxOutModel;

    open spec fn view(&self) -> TxOutModel {
        TxOutModel { address: self.address@, value: self.value@ }
    }
}

impl TxOutModel {
    /// The address is well formed, its encoding is short enough to be
    /// wrapped, and the amount respects the supply ceiling.
    pub open spec fn wf(self) -> bool {
        &&& self.address.wf()
        &&& enc_addr(self.address).len() <= u64::MAX
        &&& self.value <= MAX_COIN
    }
}

/// An output: an array of two, the checksum-wrapped address, the amount.
pub open spec fn enc_txout(o: TxOutModel) -> Seq<u8> {
    enc_array(2) + enc_with_crc32(enc_addr(o.address)) + enc_uint(o.value)
}

/// Reads a wrapped payload that holds an address and nothing more.
pub open spec fn parse_wrapped_addr(s: Seq<u8>) -> Result<(AddrModel, Seq<u8>), Error> {
    match parse_with_crc32(s) {
        Err(e) => Err(e),
        Ok((payload, r)) => match parse_addr(payload) {
            Err(e) => Err(e),
            Ok((a, left)) => if left.len() == 0 {
                Ok((a, r))
            } else {
                Err(Error::MalformedStructure)
            },
        },
    }
}

/// Reads an output.  The element count is checked before any field is read.
pub open spec fn parse_txout(s: Seq<u8>) -> Result<(TxOutModel, Seq<u8>), Error> {
    match parse_array(s) {
        Err(e) => Err(e),
        Ok((n, r0)) => if n != 2 {
            Err(Error::MalformedStructure)
        } else {
            match parse_wrapped_addr(r0) {
                Err(e) => Err(e),
                Ok((a, r1)) => match parse_coin(r1) {
                    Err(e) => Err(e),
                    Ok((v, r2)) => Ok((TxOutModel { address: a, value: v }, r2)),
                },
            }
        },
    }
}

impl TxOut {
    /// The address is well formed and the amount respects the ceiling.
    pub open spec fn wf(&self) -> bool {
        self@.wf()
    }

    /// An output of `value` to `addr`.
    pub fn new(addr: ExtendedAddr, value: Coin) -> (o: Self)
        ensures
            o.address == addr,
            o.value == value,
    {
        TxOut { address: addr, value: value }
    }

    /// Appends the output.
    pub fn encode(&self, buf: &mut Vec<u8>)
        ensures
            final(buf)@ == old(buf)@ + enc_txout(self@),
    {
        array_start(2, buf);
        let mut inner: Vec<u8> = Vec::new();
        self.address.encode(&mut inner);
        proof {
            assert(inner@ =~= enc_addr(self.address@));
        }
        encode_with_crc32(inner.as_slice(), buf);
        self.value.encode(buf);
        proof {
            assert(buf@ =~= old(buf)@ + enc_txout(self@));
        }
    }

    /// Reads an output.
    pub fn decode(decoder: &mut Decoder) -> (r: Result<Self, Error>)
        ensures
            match r {
                Ok(o) => o.value.wf() && parse_txout(old(decoder)@) == Ok::<_, Error>(
                    (o@, final(decoder)@),
                ),
                Err(e) => parse_txout(old(decoder)@) == Err::<(TxOutModel, Seq<u8>), _>(e),
            },
            parse_array(old(decoder)@) matches Ok((n, fields)) ==> n != 2 ==> final(decoder)@
                == fields,
    {
        let l = match decoder.array_start() {
            Ok(l) => l,
            Err(e) => {
                return Err(e);
            },
        };
        if l != 2 {
            return Err(Error::MalformedStructure);
        }
        let payload = match decode_with_crc32(decoder) {
            Ok(p) => p,
            Err(e) => {
                return Err(e);
            },
        };
        let mut sub = Decoder::from_vec(payload);
        let addr = match ExtendedAddr::decode(&mut sub) {
            Ok(a) => a,
            Err(e) => {
                return Err(e);
            },
        };
        if sub.remaining() != 0 {
            return Err(Error::MalformedStructure);
        }
        let value = match Coin::decode(decoder) {
            Ok(v) => v,
            Err(e) => {
                return Err(e);
            },
        };
        Ok(TxOut::new(addr, value))
    }
}

/// Decoding an encoded output gives the output back, and leaves exactly
/// what followed it.
pub proof fn lemma_txout_round_trip(o: TxOutModel, rest: Seq<u8>)
    requires
        o.wf(),
    ensures
        parse_txout(enc_txout(o) + rest) == Ok::<_, Error>((o, rest)),
{
    let w = enc_with_crc32(enc_addr(o.address));
    let v = enc_uint(o.value);
    assert(enc_txout(o) + rest =~= enc_array(2) + (w + (v + rest)));
    lemma_parse_typed(MAJOR_ARRAY, 2, w + (v + rest));
    lemma_crc32_round_trip(enc_addr(o.address), v + rest);
    lemma_addr_round_trip(o.address, Seq::empty());
    assert(enc_addr(o.address) + Seq::<u8>::empty() =~= enc_addr(o.address));
    lemma_parse_typed(MAJOR_UINT, o.value, rest);
}

/// An output whose array header announces anything but two elements is
/// refused as malformed, whatever follows the header.
pub proof fn lemma_txout_wrong_count(n: u64, rest: Seq<u8>)
    requires
        n != 2,
    ensures
        parse_txout(enc_array(n) + rest) == Err::<(TxOutModel, Seq<u8>), _>(
            Error::MalformedStructure,
        ),
{
    lemma_parse_typed(MAJOR_ARRAY, n, rest);
}

} // verus!
