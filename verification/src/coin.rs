//! Amounts of coin, bounded by the total supply.

use vstd::prelude::*;
use crate::cbor::{enc_uint, parse_uint, lemma_parse_typed, MAJOR_UINT};
use crate::decode::Decoder;
use crate::encode::uint;
use crate::error::Error;

verus! {

/// The total supply: no amount is larger.
pub const MAX_COIN: u64 = 45000000000000000;

/// An amount of coin, at most `MAX_COIN`.
#[derive(Debug, PartialEq, Eq, Structural, PartialOrd, Ord, Clone, Copy)]
pub struct Coin(u64);

impl View for Coin {
    type V = u64;

    closed spec fn view(&self) -> u64 {
        self.0
    }
}

/// Reads an unsigned integer and insists that it is an amount.
pub open spec fn parse_coin(s: Seq<u8>) -> Result<(u64, Seq<u8>), Error> {
    match parse_uint(s) {
        Ok((v, rest)) => if v <= MAX_COIN {
            Ok((v, rest))
        } else {
            Err(Error::OutOfBounds)
        },
        Err(e) => Err(e),
    }
}

impl Coin {
    /// The amount respects the supply ceiling.
    #[verifier::type_invariant]
    pub open spec fn wf(&self) -> bool {
        self@ <= MAX_COIN
    }

    /// The amount `v`, unless it exceeds `MAX_COIN`.
    pub fn new(v: u64) -> (r: Option<Self>)
        ensures
            r is Some <==> v <= MAX_COIN,
            r matches Some(c) ==> c@ == v && c.wf(),
    {
        if v <= MAX_COIN {
            Some(Coin(v))
        } else {
            None
        }
    }

    /// The amount as a number.
    pub fn value(&self) -> (v: u64)
        ensures
            v == self@,
            v <= MAX_COIN,
    {
        proof {
            use_type_invariant(self);
        }
        self.0
    }

    /// Appends the amount as an unsigned integer.
    pub fn encode(&self, buf: &mut Vec<u8>)
        ensures
            final(buf)@ == old(buf)@ + enc_uint(self@),
    {
        uint(self.0, buf)
    }

    /// Reads an amount: an unsigned integer of at most `MAX_COIN`.
    pub fn decode(decoder: &mut Decoder) -> (r: Result<Self, Error>)
        ensures
            match r {
                Ok(c) => c.wf() && parse_coin(old(decoder)@) == Ok::<_, Error>(
                    (c@, final(decoder)@),
                ),
                Err(e) => parse_coin(old(decoder)@) == Err::<(u64, Seq<u8>), _>(e),
            },
    {
        let value = match decoder.uint() {
            Ok(v) => v,
            Err(e) => {
                return Err(e);
            },
        };
        match Self::new(value) {
            None => Err(Error::OutOfBounds),
            Some(v) => Ok(v),
        }
    }
}

/// Two amounts of the same number are the same amount.
pub proof fn lemma_coin_eq(a: Coin, b: Coin)
    requires
        a@ == b@,
    ensures
        a == b,
{
}

/// Decoding an encoded amount gives back the amount and what followed it.
pub proof fn lemma_coin_round_trip(c: Coin, rest: Seq<u8>)
    requires
        c.wf(),
    ensures
        parse_coin(enc_uint(c@) + rest) == Ok::<_, Error>((c@, rest)),
{
    lemma_parse_typed(MAJOR_UINT, c@, rest);
}

/// An encoded integer above the ceiling is refused as out of bounds.
pub proof fn lemma_coin_out_of_bounds(v: u64, rest: Seq<u8>)
    requires
        v > MAX_COIN,
    ensures
        parse_coin(enc_uint(v) + rest) == Err::<(u64, Seq<u8>), _>(Error::OutOfBounds),
{
    lemma_parse_typed(MAJOR_UINT, v, rest);
}

} // verus!
