//! Sequences of items on the wire: an array header with the count, then the
//! items one after another.

use vstd::prelude::*;
use crate::cbor::{enc_array, parse_array, lemma_parse_typed, MAJOR_ARRAY};
use crate::error::Error;

verus! {

/// The encodings of `items`, one after another.
pub open spec fn enc_items<T>(items: Seq<T>, enc: spec_fn(T) -> Seq<u8>) -> Seq<u8>
    decreases items.len(),
{
    if items.len() == 0 {
        Seq::empty()
    } else {
        enc_items(items.drop_last(), enc) + enc(items.last())
    }
}

/// Reads `n` items, one after another.
pub open spec fn parse_items<T>(
    s: Seq<u8>,
    n: nat,
    parse: spec_fn(Seq<u8>) -> Result<(T, Seq<u8>), Error>,
) -> Result<(Seq<T>, Seq<u8>), Error>
    decreases n,
{
    if n == 0 {
        Ok((Seq::empty(), s))
    } else {
        match parse(s) {
            Err(e) => Err(e),
            Ok((x, r)) => match parse_items(r, (n - 1) as nat, parse) {
                Err(e) => Err(e),
                Ok((xs, r2)) => Ok((seq![x] + xs, r2)),
            },
        }
    }
}

/// A list: the count as an array header, then the items.
pub open spec fn enc_list<T>(items: Seq<T>, enc: spec_fn(T) -> Seq<u8>) -> Seq<u8> {
    enc_array(items.len() as u64) + enc_items(items, enc)
}

/// Reads an array header and as many items as it announces.
pub open spec fn parse_list<T>(
    s: Seq<u8>,
    parse: spec_fn(Seq<u8>) -> Result<(T, Seq<u8>), Error>,
) -> Result<(Seq<T>, Seq<u8>), Error> {
    match parse_array(s) {
        Err(e) => Err(e),
        Ok((n, r)) => parse_items(r, n as nat, parse),
    }
}

/// Reading the encoding of `x`, followed by `rest`, gives `x` and `rest`.
pub open spec fn round_trips<T>(
    x: T,
    rest: Seq<u8>,
    enc: spec_fn(T) -> Seq<u8>,
    parse: spec_fn(Seq<u8>) -> Result<(T, Seq<u8>), Error>,
) -> bool {
    parse(enc(x) + rest) == Ok::<_, Error>((x, rest))
}

/// The encoding of a non-empty sequence starts with that of its first item.
pub proof fn lemma_enc_items_front<T>(items: Seq<T>, enc: spec_fn(T) -> Seq<u8>)
    requires
        items.len() > 0,
    ensures
        enc_items(items, enc) == enc(items[0]) + enc_items(items.skip(1), enc),
    decreases items.len(),
{
    if items.len() == 1 {
        assert(items.drop_last() =~= Seq::<T>::empty());
        assert(items.skip(1) =~= Seq::<T>::empty());
        assert(enc_items(items, enc) =~= enc(items[0]) + enc_items(items.skip(1), enc));
    } else {
        lemma_enc_items_front(items.drop_last(), enc);
        assert(items.drop_last().skip(1) =~= items.skip(1).drop_last());
        assert(items.skip(1).last() == items.last());
        assert(enc_items(items, enc) =~= enc(items[0]) + enc_items(items.skip(1), enc));
    }
}

/// Where every item round-trips, so does the sequence of them.
pub proof fn lemma_items_round_trip<T>(
    items: Seq<T>,
    enc: spec_fn(T) -> Seq<u8>,
    parse: spec_fn(Seq<u8>) -> Result<(T, Seq<u8>), Error>,
    rest: Seq<u8>,
)
    requires
        forall|i: int, r: Seq<u8>|
            0 <= i < items.len() ==> #[trigger] round_trips(items[i], r, enc, parse),
    ensures
        parse_items(enc_items(items, enc) + rest, items.len(), parse) == Ok::<_, Error>(
            (items, rest),
        ),
    decreases items.len(),
{
    if items.len() == 0 {
        assert(enc_items(items, enc) + rest =~= rest);
        assert(items =~= Seq::<T>::empty());
    } else {
        lemma_enc_items_front(items, enc);
        let tail = items.skip(1);
        let after = enc_items(tail, enc) + rest;
        assert(enc_items(items, enc) + rest =~= enc(items[0]) + after);
        assert(round_trips(items[0], after, enc, parse));
        assert forall|i: int, r: Seq<u8>| 0 <= i < tail.len() implies #[trigger] round_trips(
            tail[i],
            r,
            enc,
            parse,
        ) by {
            assert(tail[i] == items[i + 1]);
            assert(round_trips(items[i + 1], r, enc, parse));
        }
        lemma_items_round_trip(tail, enc, parse, rest);
        assert(seq![items[0]] + tail =~= items);
    }
}

/// Where every item round-trips, so does the list of them.
pub proof fn lemma_list_round_trip<T>(
    items: Seq<T>,
    enc: spec_fn(T) -> Seq<u8>,
    parse: spec_fn(Seq<u8>) -> Result<(T, Seq<u8>), Error>,
    rest: Seq<u8>,
)
    requires
        items.len() <= u64::MAX,
        forall|i: int, r: Seq<u8>|
            0 <= i < items.len() ==> #[trigger] round_trips(items[i], r, enc, parse),
    ensures
        parse_list(enc_list(items, enc) + rest, parse) == Ok::<_, Error>((items, rest)),
{
    let body = enc_items(items, enc);
    assert(enc_list(items, enc) + rest =~= enc_array(items.len() as u64) + (body + rest));
    lemma_parse_typed(MAJOR_ARRAY, items.len() as u64, body + rest);
    lemma_items_round_trip(items, enc, parse, rest);
}

/// Reading one more item: how `parse_items` from the start relates to
/// `parse_items` from here, once `done` have been read.
pub open spec fn continues<T>(
    whole: Result<(Seq<T>, Seq<u8>), Error>,
    done: Seq<T>,
    here: Seq<u8>,
    left: nat,
    parse: spec_fn(Seq<u8>) -> Result<(T, Seq<u8>), Error>,
) -> bool {
    whole == match parse_items(here, left, parse) {
        Err(e) => Err::<(Seq<T>, Seq<u8>), Error>(e),
        Ok((xs, r)) => Ok((done + xs, r)),
    }
}

/// At the start nothing has been read.
pub proof fn lemma_continues_start<T>(
    s: Seq<u8>,
    n: nat,
    parse: spec_fn(Seq<u8>) -> Result<(T, Seq<u8>), Error>,
)
    ensures
        continues(parse_items(s, n, parse), Seq::<T>::empty(), s, n, parse),
{
    match parse_items(s, n, parse) {
        Err(e) => {},
        Ok((xs, r)) => {
            assert(Seq::<T>::empty() + xs =~= xs);
        },
    }
}

/// One item read with success moves the reading on by one.
pub proof fn lemma_continues_step<T>(
    whole: Result<(Seq<T>, Seq<u8>), Error>,
    done: Seq<T>,
    here: Seq<u8>,
    left: nat,
    parse: spec_fn(Seq<u8>) -> Result<(T, Seq<u8>), Error>,
    x: T,
    next: Seq<u8>,
)
    requires
        left > 0,
        continues(whole, done, here, left, parse),
        parse(here) == Ok::<_, Error>((x, next)),
    ensures
        continues(whole, done.push(x), next, (left - 1) as nat, parse),
{
    match parse_items(next, (left - 1) as nat, parse) {
        Err(e) => {},
        Ok((xs, r)) => {
            assert(done + (seq![x] + xs) =~= done.push(x) + xs);
        },
    }
}

/// One item refused ends the reading with its error.
pub proof fn lemma_continues_fail<T>(
    whole: Result<(Seq<T>, Seq<u8>), Error>,
    done: Seq<T>,
    here: Seq<u8>,
    left: nat,
    parse: spec_fn(Seq<u8>) -> Result<(T, Seq<u8>), Error>,
    e: Error,
)
    requires
        left > 0,
        continues(whole, done, here, left, parse),
        parse(here) == Err::<(T, Seq<u8>), Error>(e),
    ensures
        whole == Err::<(Seq<T>, Seq<u8>), Error>(e),
{
}

/// With nothing left to read, the reading is complete.
pub proof fn lemma_continues_end<T>(
    whole: Result<(Seq<T>, Seq<u8>), Error>,
    done: Seq<T>,
    here: Seq<u8>,
    parse: spec_fn(Seq<u8>) -> Result<(T, Seq<u8>), Error>,
)
    requires
        continues(whole, done, here, 0, parse),
    ensures
        whole == Ok::<_, Error>((done, here)),
{
    assert(done + Seq::<T>::empty() =~= done);
}

} // verus!
