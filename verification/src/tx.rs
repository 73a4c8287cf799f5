//! Transactions: inputs, outputs, the witnesses that authorise spending,
//! and the summary of a batch of transactions.
//!
//! A record of N fields is an array of exactly N elements, the fields in
//! declared order.  A witness is led by the number of its form.

use vstd::prelude::*;
use crate::cbor::{
    enc_array, enc_bs, enc_map, enc_uint, parse_array, parse_bs, parse_map, parse_uint,
    lemma_parse_bs, lemma_parse_typed, MAJOR_ARRAY, MAJOR_MAP, MAJOR_UINT,
};
use crate::decode::Decoder;
use crate::encode::{array_start, bs, map_start, uint};
use crate::error::Error;
use crate::hash::parse_hash;
use crate::list::{
    continues, enc_items, enc_list, parse_items, parse_list, round_trips, lemma_continues_end,
    lemma_continues_fail, lemma_continues_start, lemma_continues_step, lemma_list_round_trip,
};
use crate::txout::{TxOut, TxOutModel, enc_txout, parse_txout, lemma_txout_round_trip};

verus! {

/// The identifier of a transaction.
pub type TxId = crate::hash::Hash<Tx>;

/// One input of a transaction: an output of an earlier transaction.
#[derive(Debug, PartialEq, Eq, Clone)]
pub struct TxIn {
    pub id: TxId,
    pub index: u32,
}

/// An input as a mathematical value.
pub struct TxInModel {
    pub id: Seq<u8>,
    pub index: u32,
}

impl View for TxIn {
    type V = TxInModel;

    open spec fn view(&self) -> TxInModel {
        TxInModel { id: self.id@, index: self.index }
    }
}

impl TxInModel {
    /// The identifier has 32 bytes.
    pub open spec fn wf(self) -> bool {
        self.id.len() == 32
    }
}

/// An input: an array of two, the identifier, the index.
pub open spec fn enc_txin(i: TxInModel) -> Seq<u8> {
    enc_array(2) + enc_bs(i.id) + enc_uint(i.index as u64)
}

/// Reads an input.
pub open spec fn parse_txin(s: Seq<u8>) -> Result<(TxInModel, Seq<u8>), Error> {
    match parse_array(s) {
        Err(e) => Err(e),
        Ok((n, r0)) => if n != 2 {
            Err(Error::MalformedStructure)
        } else {
            match parse_hash(r0) {
                Err(e) => Err(e),
                Ok((id, r1)) => match parse_uint(r1) {
                    Err(e) => Err(e),
                    Ok((v, r2)) => if v <= u32::MAX {
                        Ok((TxInModel { id: id, index: v as u32 }, r2))
                    } else {
                        Err(Error::OutOfBounds)
                    },
                },
            }
        },
    }
}

impl TxIn {
    /// The input that spends output `index` of transaction `id`.
    pub fn new(id: TxId, index: u32) -> (i: Self)
        ensures
            i.id == id,
            i.index == index,
    {
        TxIn { id, index }
    }

    /// Appends the input.
    pub fn encode(&self, buf: &mut Vec<u8>)
        ensures
            final(buf)@ == old(buf)@ + enc_txin(self@),
    {
        array_start(2, buf);
        self.id.encode(buf);
        uint(self.index as u64, buf);
        proof {
            assert(buf@ =~= old(buf)@ + enc_txin(self@));
        }
    }

    /// Reads an input.
    pub fn decode(decoder: &mut Decoder) -> (r: Result<Self, Error>)
        ensures
            match r {
                Ok(i) => parse_txin(old(decoder)@) == Ok::<_, Error>((i@, final(decoder)@)),
                Err(e) => parse_txin(old(decoder)@) == Err::<(TxInModel, Seq<u8>), _>(e),
            },
    {
        let n = match decoder.array_start() {
            Ok(n) => n,
            Err(e) => {
                return Err(e);
            },
        };
        if n != 2 {
            return Err(Error::MalformedStructure);
        }
        let id = match crate::hash::Hash::decode(decoder) {
            Ok(h) => h,
            Err(e) => {
                return Err(e);
            },
        };
        let v = match decoder.uint() {
            Ok(v) => v,
            Err(e) => {
                return Err(e);
            },
        };
        if v <= 0xFFFF_FFFF {
            Ok(TxIn { id, index: v as u32 })
        } else {
            Err(Error::OutOfBounds)
        }
    }
}

/// Decoding an encoded input gives the input back.
pub proof fn lemma_txin_round_trip(i: TxInModel, rest: Seq<u8>)
    requires
        i.wf(),
    ensures
        parse_txin(enc_txin(i) + rest) == Ok::<_, Error>((i, rest)),
{
    let x = enc_uint(i.index as u64);
    assert(enc_txin(i) + rest =~= enc_array(2) + (enc_bs(i.id) + (x + rest)));
    lemma_parse_typed(MAJOR_ARRAY, 2, enc_bs(i.id) + (x + rest));
    lemma_parse_bs(i.id, x + rest);
    lemma_parse_typed(MAJOR_UINT, i.index as u64, rest);
}

/// The proof that an input may be spent, in one of three forms.
#[derive(Debug, PartialEq, Eq, Clone)]
pub enum TxInWitness {
    /// A public key and the signature of the transaction under it.
    PkWitness(Vec<u8>, Vec<u8>),
    /// A validator script and a redeemer script.
    ScriptWitness(Vec<u8>, Vec<u8>),
    /// A redeem public key and a redeem signature.
    RedeemWitness(Vec<u8>, Vec<u8>),
}

/// A witness as a mathematical value.
pub enum WitnessModel {
    PkWitness(Seq<u8>, Seq<u8>),
    ScriptWitness(Seq<u8>, Seq<u8>),
    RedeemWitness(Seq<u8>, Seq<u8>),
}

impl View for TxInWitness {
    type V = WitnessModel;

    open spec fn view(&self) -> WitnessModel {
        match self {
            TxInWitness::PkWitness(a, b) => WitnessModel::PkWitness(a@, b@),
            TxInWitness::ScriptWitness(a, b) => WitnessModel::ScriptWitness(a@, b@),
            TxInWitness::RedeemWitness(a, b) => WitnessModel::RedeemWitness(a@, b@),
        }
    }
}

impl WitnessModel {
    /// The number that leads the form on the wire.
    pub open spec fn form(self) -> u64 {
        match self {
            WitnessModel::PkWitness(_, _) => 0,
            WitnessModel::ScriptWitness(_, _) => 1,
            WitnessModel::RedeemWitness(_, _) => 2,
        }
    }

    /// The first payload.
    pub open spec fn first(self) -> Seq<u8> {
        match self {
            WitnessModel::PkWitness(a, _) => a,
            WitnessModel::ScriptWitness(a, _) => a,
            WitnessModel::RedeemWitness(a, _) => a,
        }
    }

    /// The second payload.
    pub open spec fn second(self) -> Seq<u8> {
        match self {
            WitnessModel::PkWitness(_, b) => b,
            WitnessModel::ScriptWitness(_, b) => b,
            WitnessModel::RedeemWitness(_, b) => b,
        }
    }

    /// A public key and a signature have 64 bytes each; the payloads of the
    /// other forms are free, up to what a header can announce.
    pub open spec fn wf(self) -> bool {
        &&& self.first().len() <= u64::MAX
        &&& self.second().len() <= u64::MAX
        &&& (self is PkWitness ==> self.first().len() == 64 && self.second().len() == 64)
    }
}

/// The witness of form `k` with the payloads `a` and `b`.
pub open spec fn witness_of(k: u64, a: Seq<u8>, b: Seq<u8>) -> WitnessModel {
    if k == 0 {
        WitnessModel::PkWitness(a, b)
    } else if k == 1 {
        WitnessModel::ScriptWitness(a, b)
    } else {
        WitnessModel::RedeemWitness(a, b)
    }
}

/// A witness: an array of three, the form, then the two payloads.
pub open spec fn enc_witness(w: WitnessModel) -> Seq<u8> {
    enc_array(3) + enc_uint(w.form()) + enc_bs(w.first()) + enc_bs(w.second())
}

/// Reads a witness.  A form other than the three known ones is refused.
pub open spec fn parse_witness(s: Seq<u8>) -> Result<(WitnessModel, Seq<u8>), Error> {
    match parse_array(s) {
        Err(e) => Err(e),
        Ok((n, r0)) => if n != 3 {
            Err(Error::MalformedStructure)
        } else {
            match parse_uint(r0) {
                Err(e) => Err(e),
                Ok((k, r1)) => if k > 2 {
                    Err(Error::Unsupported)
                } else {
                    match parse_bs(r1) {
                        Err(e) => Err(e),
                        Ok((a, r2)) => match parse_bs(r2) {
                            Err(e) => Err(e),
                            Ok((b, r3)) => if k == 0 && (a.len() != 64 || b.len() != 64) {
                                Err(Error::InvalidLength)
                            } else {
                                Ok((witness_of(k, a, b), r3))
                            },
                        },
                    }
                },
            }
        },
    }
}

impl TxInWitness {
    /// Appends the witness.
    pub fn encode(&self, buf: &mut Vec<u8>)
        ensures
            final(buf)@ == old(buf)@ + enc_witness(self@),
    {
        array_start(3, buf);
        match self {
            TxInWitness::PkWitness(a, b) => {
                uint(0, buf);
                bs(a.as_slice(), buf);
                bs(b.as_slice(), buf);
            },
            TxInWitness::ScriptWitness(a, b) => {
                uint(1, buf);
                bs(a.as_slice(), buf);
                bs(b.as_slice(), buf);
            },
            TxInWitness::RedeemWitness(a, b) => {
                uint(2, buf);
                bs(a.as_slice(), buf);
                bs(b.as_slice(), buf);
            },
        }
        proof {
            assert(buf@ =~= old(buf)@ + enc_witness(self@));
        }
    }

    /// Reads a witness.
    pub fn decode(decoder: &mut Decoder) -> (r: Result<Self, Error>)
        ensures
            match r {
                Ok(w) => parse_witness(old(decoder)@) == Ok::<_, Error>((w@, final(decoder)@)),
                Err(e) => parse_witness(old(decoder)@) == Err::<(WitnessModel, Seq<u8>), _>(e),
            },
    {
        let n = match decoder.array_start() {
            Ok(n) => n,
            Err(e) => {
                return Err(e);
            },
        };
        if n != 3 {
            return Err(Error::MalformedStructure);
        }
        let k = match decoder.uint() {
            Ok(k) => k,
            Err(e) => {
                return Err(e);
            },
        };
        if k > 2 {
            return Err(Error::Unsupported);
        }
        let a = match decoder.bs() {
            Ok(a) => a,
            Err(e) => {
                return Err(e);
            },
        };
        let b = match decoder.bs() {
            Ok(b) => b,
            Err(e) => {
                return Err(e);
            },
        };
        if k == 0 {
            if a.len() != 64 || b.len() != 64 {
                Err(Error::InvalidLength)
            } else {
                Ok(TxInWitness::PkWitness(a, b))
            }
        } else if k == 1 {
            Ok(TxInWitness::ScriptWitness(a, b))
        } else {
            Ok(TxInWitness::RedeemWitness(a, b))
        }
    }
}

/// Decoding an encoded witness gives the witness back.
pub proof fn lemma_witness_round_trip(w: WitnessModel, rest: Seq<u8>)
    requires
        w.wf(),
    ensures
        parse_witness(enc_witness(w) + rest) == Ok::<_, Error>((w, rest)),
{
    let k = enc_uint(w.form());
    let a = enc_bs(w.first());
    let b = enc_bs(w.second());
    assert(enc_witness(w) + rest =~= enc_array(3) + (k + (a + (b + rest))));
    lemma_parse_typed(MAJOR_ARRAY, 3, k + (a + (b + rest)));
    lemma_parse_typed(MAJOR_UINT, w.form(), a + (b + rest));
    lemma_parse_bs(w.first(), b + rest);
    lemma_parse_bs(w.second(), rest);
}

/// What `parse_list` reads an item of a list of inputs with.
pub open spec fn input_parser() -> spec_fn(Seq<u8>) -> Result<(TxInModel, Seq<u8>), Error> {
    |s: Seq<u8>| parse_txin(s)
}

/// What `enc_list` writes an item of a list of inputs with.
pub open spec fn input_encoder() -> spec_fn(TxInModel) -> Seq<u8> {
    |x: TxInModel| enc_txin(x)
}

/// The models of a sequence of inputs, item by item.
pub open spec fn input_models(v: Seq<TxIn>) -> Seq<TxInModel> {
    v.map_values(|x: TxIn| x@)
}

/// Appends a list of inputs.
pub fn encode_inputs(items: &Vec<TxIn>, buf: &mut Vec<u8>)
    ensures
        final(buf)@ == old(buf)@ + enc_list(input_models(items@), input_encoder()),
{
    let ghost start = buf@;
    let ghost model = input_models(items@);
    array_start(items.len() as u64, buf);
    let mut i: usize = 0;
    while i < items.len()
        invariant
            i <= items.len(),
            model == input_models(items@),
            buf@ == start + enc_array(items.len() as u64) + enc_items(
                model.take(i as int),
                input_encoder(),
            ),
        decreases items.len() - i,
    {
        items[i].encode(buf);
        proof {
            assert(model.take(i + 1).drop_last() =~= model.take(i as int));
            assert(model.take(i + 1).last() == items[i as int]@);
            assert(buf@ =~= start + enc_array(items.len() as u64) + enc_items(
                model.take(i + 1),
                input_encoder(),
            ));
        }
        i = i + 1;
    }
    proof {
        assert(model.take(items.len() as int) =~= model);
    }
}

/// Reads a list of inputs.
pub fn decode_inputs(decoder: &mut Decoder) -> (r: Result<Vec<TxIn>, Error>)
    ensures
        match r {
            Ok(v) => parse_list(old(decoder)@, input_parser()) == Ok::<_, Error>(
                (input_models(v@), final(decoder)@),
            ),
            Err(e) => parse_list(old(decoder)@, input_parser()) == Err::<
                (Seq<TxInModel>, Seq<u8>),
                _,
            >(e),
        },
{
    let n = match decoder.array_start() {
        Ok(n) => n,
        Err(e) => {
            return Err(e);
        },
    };
    let ghost whole = parse_items(decoder@, n as nat, input_parser());
    proof {
        lemma_continues_start(decoder@, n as nat, input_parser());
        assert(input_models(Seq::<TxIn>::empty()) =~= Seq::<TxInModel>::empty());
    }
    let mut out: Vec<TxIn> = Vec::new();
    let mut i: u64 = 0;
    while i < n
        invariant
            i <= n,
            parse_list(old(decoder)@, input_parser()) == whole,
            continues(whole, input_models(out@), decoder@, (n - i) as nat, input_parser()),
        decreases n - i,
    {
        let ghost here = decoder@;
        let ghost done = input_models(out@);
        match TxIn::decode(decoder) {
            Err(e) => {
                proof {
                    lemma_continues_fail(whole, done, here, (n - i) as nat, input_parser(), e);
                }
                return Err(e);
            },
            Ok(x) => {
                proof {
                    lemma_continues_step(
                        whole,
                        done,
                        here,
                        (n - i) as nat,
                        input_parser(),
                        x@,
                        decoder@,
                    );
                    assert(input_models(out@.push(x)) =~= done.push(x@));
                }
                out.push(x);
            },
        }
        i = i + 1;
    }
    proof {
        lemma_continues_end(whole, input_models(out@), decoder@, input_parser());
    }
    Ok(out)
}

/// What `parse_list` reads an item of a list of outputs with.
pub open spec fn output_parser() -> spec_fn(Seq<u8>) -> Result<(TxOutModel, Seq<u8>), Error> {
    |s: Seq<u8>| parse_txout(s)
}

/// What `enc_list` writes an item of a list of outputs with.
pub open spec fn output_encoder() -> spec_fn(TxOutModel) -> Seq<u8> {
    |x: TxOutModel| enc_txout(x)
}

/// The models of a sequence of outputs, item by item.
pub open spec fn output_models(v: Seq<TxOut>) -> Seq<TxOutModel> {
    v.map_values(|x: TxOut| x@)
}

/// Appends a list of outputs.
pub fn encode_outputs(items: &Vec<TxOut>, buf: &mut Vec<u8>)
    ensures
        final(buf)@ == old(buf)@ + enc_list(output_models(items@), output_encoder()),
{
    let ghost start = buf@;
    let ghost model = output_models(items@);
    array_start(items.len() as u64, buf);
    let mut i: usize = 0;
    while i < items.len()
        invariant
            i <= items.len(),
            model == output_models(items@),
            buf@ == start + enc_array(items.len() as u64) + enc_items(
                model.take(i as int),
                output_encoder(),
            ),
        decreases items.len() - i,
    {
        items[i].encode(buf);
        proof {
            assert(model.take(i + 1).drop_last() =~= model.take(i as int));
            assert(model.take(i + 1).last() == items[i as int]@);
            assert(buf@ =~= start + enc_array(items.len() as u64) + enc_items(
                model.take(i + 1),
                output_encoder(),
            ));
        }
        i = i + 1;
    }
    proof {
        assert(model.take(items.len() as int) =~= model);
    }
}

/// Reads a list of outputs.
pub fn decode_outputs(decoder: &mut Decoder) -> (r: Result<Vec<TxOut>, Error>)
    ensures
        match r {
            Ok(v) => parse_list(old(decoder)@, output_parser()) == Ok::<_, Error>(
                (output_models(v@), final(decoder)@),
            ),
            Err(e) => parse_list(old(decoder)@, output_parser()) == Err::<
                (Seq<TxOutModel>, Seq<u8>),
                _,
            >(e),
        },
{
    let n = match decoder.array_start() {
        Ok(n) => n,
        Err(e) => {
            return Err(e);
        },
    };
    let ghost whole = parse_items(decoder@, n as nat, output_parser());
    proof {
        lemma_continues_start(decoder@, n as nat, output_parser());
        assert(output_models(Seq::<TxOut>::empty()) =~= Seq::<TxOutModel>::empty());
    }
    let mut out: Vec<TxOut> = Vec::new();
    let mut i: u64 = 0;
    while i < n
        invariant
            i <= n,
            parse_list(old(decoder)@, output_parser()) == whole,
            continues(whole, output_models(out@), decoder@, (n - i) as nat, output_parser()),
        decreases n - i,
    {
        let ghost here = decoder@;
        let ghost done = output_models(out@);
        match TxOut::decode(decoder) {
            Err(e) => {
                proof {
                    lemma_continues_fail(whole, done, here, (n - i) as nat, output_parser(), e);
                }
                return Err(e);
            },
            Ok(x) => {
                proof {
                    lemma_continues_step(
                        whole,
                        done,
                        here,
                        (n - i) as nat,
                        output_parser(),
                        x@,
                        decoder@,
                    );
                    assert(output_models(out@.push(x)) =~= done.push(x@));
                }
                out.push(x);
            },
        }
        i = i + 1;
    }
    proof {
        lemma_continues_end(whole, output_models(out@), decoder@, output_parser());
    }
    Ok(out)
}

/// What `parse_list` reads an item of a list of witnesses with.
pub open spec fn witness_parser() -> spec_fn(Seq<u8>) -> Result<(WitnessModel, Seq<u8>), Error> {
    |s: Seq<u8>| parse_witness(s)
}

/// What `enc_list` writes an item of a list of witnesses with.
pub open spec fn witness_encoder() -> spec_fn(WitnessModel) -> Seq<u8> {
    |x: WitnessModel| enc_witness(x)
}

/// The models of a sequence of witnesses, item by item.
pub open spec fn witness_models(v: Seq<TxInWitness>) -> Seq<WitnessModel> {
    v.map_values(|x: TxInWitness| x@)
}

/// Appends a list of witnesses.
pub fn encode_witnesses(items: &Vec<TxInWitness>, buf: &mut Vec<u8>)
    ensures
        final(buf)@ == old(buf)@ + enc_list(witness_models(items@), witness_encoder()),
{
    let ghost start = buf@;
    let ghost model = witness_models(items@);
    array_start(items.len() as u64, buf);
    let mut i: usize = 0;
    while i < items.len()
        invariant
            i <= items.len(),
            model == witness_models(items@),
            buf@ == start + enc_array(items.len() as u64) + enc_items(
                model.take(i as int),
                witness_encoder(),
            ),
        decreases items.len() - i,
    {
        items[i].encode(buf);
        proof {
            assert(model.take(i + 1).drop_last() =~= model.take(i as int));
            assert(model.take(i + 1).last() == items[i as int]@);
            assert(buf@ =~= start + enc_array(items.len() as u64) + enc_items(
                model.take(i + 1),
                witness_encoder(),
            ));
        }
        i = i + 1;
    }
    proof {
        assert(model.take(items.len() as int) =~= model);
    }
}

/// Reads a list of witnesses.
pub fn decode_witnesses(decoder: &mut Decoder) -> (r: Result<Vec<TxInWitness>, Error>)
    ensures
        match r {
            Ok(v) => parse_list(old(decoder)@, witness_parser()) == Ok::<_, Error>(
                (witness_models(v@), final(decoder)@),
            ),
            Err(e) => parse_list(old(decoder)@, witness_parser()) == Err::<
                (Seq<WitnessModel>, Seq<u8>),
                _,
            >(e),
        },
{
    let n = match decoder.array_start() {
        Ok(n) => n,
        Err(e) => {
            return Err(e);
        },
    };
    let ghost whole = parse_items(decoder@, n as nat, witness_parser());
    proof {
        lemma_continues_start(decoder@, n as nat, witness_parser());
        assert(witness_models(Seq::<TxInWitness>::empty()) =~= Seq::<WitnessModel>::empty());
    }
    let mut out: Vec<TxInWitness> = Vec::new();
    let mut i: u64 = 0;
    while i < n
        invariant
            i <= n,
            parse_list(old(decoder)@, witness_parser()) == whole,
            continues(whole, witness_models(out@), decoder@, (n - i) as nat, witness_parser()),
        decreases n - i,
    {
        let ghost here = decoder@;
        let ghost done = witness_models(out@);
        match TxInWitness::decode(decoder) {
            Err(e) => {
                proof {
                    lemma_continues_fail(whole, done, here, (n - i) as nat, witness_parser(), e);
                }
                return Err(e);
            },
            Ok(x) => {
                proof {
                    lemma_continues_step(
                        whole,
                        done,
                        here,
                        (n - i) as nat,
                        witness_parser(),
                        x@,
                        decoder@,
                    );
                    assert(witness_models(out@.push(x)) =~= done.push(x@));
                }
                out.push(x);
            },
        }
        i = i + 1;
    }
    proof {
        lemma_continues_end(whole, witness_models(out@), decoder@, witness_parser());
    }
    Ok(out)
}

/// A transaction: its inputs and its outputs, in order.
#[derive(Debug, PartialEq, Eq, Clone)]
pub struct Tx {
    pub inputs: Vec<TxIn>,
    pub outputs: Vec<TxOut>,
}

/// A transaction as a mathematical value.
pub struct TxModel {
    pub inputs: Seq<TxInModel>,
    pub outputs: Seq<TxOutModel>,
}

impl View for Tx {
    type V = TxModel;

    open spec fn view(&self) -> TxModel {
        TxModel { inputs: input_models(self.inputs@), outputs: output_models(self.outputs@) }
    }
}

impl TxModel {
    /// Every input and every output is well formed, and a header can
    /// announce how many there are.
    pub open spec fn wf(self) -> bool {
        &&& self.inputs.len() <= u64::MAX
        &&& self.outputs.len() <= u64::MAX
        &&& forall|i: int| 0 <= i < self.inputs.len() ==> (#[trigger] self.inputs[i]).wf()
        &&& forall|i: int| 0 <= i < self.outputs.len() ==> (#[trigger] self.outputs[i]).wf()
    }
}

/// A transaction: an array of three, the list of inputs, the list of
/// outputs, and the attributes, an empty map.
pub open spec fn enc_tx(t: TxModel) -> Seq<u8> {
    enc_array(3) + enc_list(t.inputs, input_encoder()) + enc_list(t.outputs, output_encoder())
        + enc_map(0)
}

/// Reads a transaction.  Attributes other than none are refused.
pub open spec fn parse_tx(s: Seq<u8>) -> Result<(TxModel, Seq<u8>), Error> {
    match parse_array(s) {
        Err(e) => Err(e),
        Ok((n, r0)) => if n != 3 {
            Err(Error::MalformedStructure)
        } else {
            match parse_list(r0, input_parser()) {
                Err(e) => Err(e),
                Ok((inputs, r1)) => match parse_list(r1, output_parser()) {
                    Err(e) => Err(e),
                    Ok((outputs, r2)) => match parse_map(r2) {
                        Err(e) => Err(e),
                        Ok((m, r3)) => if m != 0 {
                            Err(Error::Unsupported)
                        } else {
                            Ok((TxModel { inputs: inputs, outputs: outputs }, r3))
                        },
                    },
                },
            }
        },
    }
}

impl Tx {
    /// The transaction that spends `inputs` into `outputs`.
    pub fn new(inputs: Vec<TxIn>, outputs: Vec<TxOut>) -> (t: Self)
        ensures
            t.inputs == inputs,
            t.outputs == outputs,
    {
        Tx { inputs, outputs }
    }

    /// Appends the transaction.
    pub fn encode(&self, buf: &mut Vec<u8>)
        ensures
            final(buf)@ == old(buf)@ + enc_tx(self@),
    {
        array_start(3, buf);
        encode_inputs(&self.inputs, buf);
        encode_outputs(&self.outputs, buf);
        map_start(0, buf);
        proof {
            assert(buf@ =~= old(buf)@ + enc_tx(self@));
        }
    }

    /// Reads a transaction.
    pub fn decode(decoder: &mut Decoder) -> (r: Result<Self, Error>)
        ensures
            match r {
                Ok(t) => parse_tx(old(decoder)@) == Ok::<_, Error>((t@, final(decoder)@)),
                Err(e) => parse_tx(old(decoder)@) == Err::<(TxModel, Seq<u8>), _>(e),
            },
    {
        let n = match decoder.array_start() {
            Ok(n) => n,
            Err(e) => {
                return Err(e);
            },
        };
        if n != 3 {
            return Err(Error::MalformedStructure);
        }
        let inputs = match decode_inputs(decoder) {
            Ok(v) => v,
            Err(e) => {
                return Err(e);
            },
        };
        let outputs = match decode_outputs(decoder) {
            Ok(v) => v,
            Err(e) => {
                return Err(e);
            },
        };
        let m = match decoder.map_start() {
            Ok(m) => m,
            Err(e) => {
                return Err(e);
            },
        };
        if m != 0 {
            return Err(Error::Unsupported);
        }
        Ok(Tx { inputs, outputs })
    }
}

/// Decoding an encoded transaction gives the transaction back.
pub proof fn lemma_tx_round_trip(t: TxModel, rest: Seq<u8>)
    requires
        t.wf(),
    ensures
        parse_tx(enc_tx(t) + rest) == Ok::<_, Error>((t, rest)),
{
    let i = enc_list(t.inputs, input_encoder());
    let o = enc_list(t.outputs, output_encoder());
    let m = enc_map(0);
    assert(enc_tx(t) + rest =~= enc_array(3) + (i + (o + (m + rest))));
    lemma_parse_typed(MAJOR_ARRAY, 3, i + (o + (m + rest)));
    assert forall|k: int, r: Seq<u8>| 0 <= k < t.inputs.len() implies #[trigger] round_trips(
        t.inputs[k],
        r,
        input_encoder(),
        input_parser(),
    ) by {
        lemma_txin_round_trip(t.inputs[k], r);
    }
    lemma_list_round_trip(t.inputs, input_encoder(), input_parser(), o + (m + rest));
    assert forall|k: int, r: Seq<u8>| 0 <= k < t.outputs.len() implies #[trigger] round_trips(
        t.outputs[k],
        r,
        output_encoder(),
        output_parser(),
    ) by {
        lemma_txout_round_trip(t.outputs[k], r);
    }
    lemma_list_round_trip(t.outputs, output_encoder(), output_parser(), m + rest);
    lemma_parse_typed(MAJOR_MAP, 0, rest);
}

/// A transaction with the witnesses of its inputs: one witness for each
/// input, in the order of the inputs.
#[derive(Debug, PartialEq, Eq)]
pub struct TxAux {
    tx: Tx,
    witnesses: Vec<TxInWitness>,
}

/// A transaction with witnesses as a mathematical value.
pub struct TxAuxModel {
    pub tx: TxModel,
    pub witnesses: Seq<WitnessModel>,
}

impl View for TxAux {
    type V = TxAuxModel;

    closed spec fn view(&self) -> TxAuxModel {
        TxAuxModel { tx: self.tx@, witnesses: witness_models(self.witnesses@) }
    }
}

impl TxAuxModel {
    /// There is one witness for each input, all are well formed, and so is
    /// the transaction.
    pub open spec fn wf(self) -> bool {
        &&& self.tx.wf()
        &&& self.witnesses.len() == self.tx.inputs.len()
        &&& forall|i: int| 0 <= i < self.witnesses.len() ==> (#[trigger] self.witnesses[i]).wf()
    }
}

/// A transaction with witnesses: an array of two, the transaction, the list
/// of witnesses.
pub open spec fn enc_txaux(a: TxAuxModel) -> Seq<u8> {
    enc_array(2) + enc_tx(a.tx) + enc_list(a.witnesses, witness_encoder())
}

/// Reads a transaction with witnesses.  A list of witnesses that is not as
/// long as the list of inputs is refused.
pub open spec fn parse_txaux(s: Seq<u8>) -> Result<(TxAuxModel, Seq<u8>), Error> {
    match parse_array(s) {
        Err(e) => Err(e),
        Ok((n, r0)) => if n != 2 {
            Err(Error::MalformedStructure)
        } else {
            match parse_tx(r0) {
                Err(e) => Err(e),
                Ok((tx, r1)) => match parse_list(r1, witness_parser()) {
                    Err(e) => Err(e),
                    Ok((ws, r2)) => if ws.len() != tx.inputs.len() {
                        Err(Error::MalformedStructure)
                    } else {
                        Ok((TxAuxModel { tx: tx, witnesses: ws }, r2))
                    },
                },
            }
        },
    }
}

impl TxAux {
    /// There is one witness for each input.
    #[verifier::type_invariant]
    spec fn aligned(self) -> bool {
        self.witnesses.len() == self.tx.inputs.len()
    }

    /// Pairs `tx` with `witnesses`, unless their number differs from the
    /// number of inputs.
    pub fn new(tx: Tx, witnesses: Vec<TxInWitness>) -> (r: Option<Self>)
        ensures
            r is Some <==> witnesses.len() == tx.inputs.len(),
            r matches Some(a) ==> a@.tx == tx@ && a@.witnesses == witness_models(witnesses@),
    {
        if witnesses.len() != tx.inputs.len() {
            None
        } else {
            Some(TxAux { tx, witnesses })
        }
    }

    /// The transaction.
    pub fn tx(&self) -> (t: &Tx)
        ensures
            t@ == self@.tx,
    {
        &self.tx
    }

    /// The witnesses, in the order of the inputs.
    pub fn witnesses(&self) -> (w: &Vec<TxInWitness>)
        ensures
            witness_models(w@) == self@.witnesses,
            w.len() == self@.tx.inputs.len(),
    {
        proof {
            use_type_invariant(self);
        }
        &self.witnesses
    }

    /// Appends the transaction and its witnesses.
    pub fn encode(&self, buf: &mut Vec<u8>)
        ensures
            final(buf)@ == old(buf)@ + enc_txaux(self@),
    {
        array_start(2, buf);
        self.tx.encode(buf);
        encode_witnesses(&self.witnesses, buf);
        proof {
            assert(buf@ =~= old(buf)@ + enc_txaux(self@));
        }
    }

    /// Reads a transaction and its witnesses.
    pub fn decode(decoder: &mut Decoder) -> (r: Result<Self, Error>)
        ensures
            match r {
                Ok(a) => parse_txaux(old(decoder)@) == Ok::<_, Error>((a@, final(decoder)@)),
                Err(e) => parse_txaux(old(decoder)@) == Err::<(TxAuxModel, Seq<u8>), _>(e),
            },
    {
        let n = match decoder.array_start() {
            Ok(n) => n,
            Err(e) => {
                return Err(e);
            },
        };
        if n != 2 {
            return Err(Error::MalformedStructure);
        }
        let tx = match Tx::decode(decoder) {
            Ok(t) => t,
            Err(e) => {
                return Err(e);
            },
        };
        let witnesses = match decode_witnesses(decoder) {
            Ok(w) => w,
            Err(e) => {
                return Err(e);
            },
        };
        match TxAux::new(tx, witnesses) {
            None => Err(Error::MalformedStructure),
            Some(a) => Ok(a),
        }
    }
}

/// Decoding an encoded transaction with witnesses gives it back.
pub proof fn lemma_txaux_round_trip(a: TxAuxModel, rest: Seq<u8>)
    requires
        a.wf(),
    ensures
        parse_txaux(enc_txaux(a) + rest) == Ok::<_, Error>((a, rest)),
{
    let t = enc_tx(a.tx);
    let w = enc_list(a.witnesses, witness_encoder());
    assert(enc_txaux(a) + rest =~= enc_array(2) + (t + (w + rest)));
    lemma_parse_typed(MAJOR_ARRAY, 2, t + (w + rest));
    lemma_tx_round_trip(a.tx, w + rest);
    assert forall|k: int, r: Seq<u8>| 0 <= k < a.witnesses.len() implies #[trigger] round_trips(
        a.witnesses[k],
        r,
        witness_encoder(),
        witness_parser(),
    ) by {
        lemma_witness_round_trip(a.witnesses[k], r);
    }
    lemma_list_round_trip(a.witnesses, witness_encoder(), witness_parser(), rest);
}

/// An encoding in which the witnesses are not as many as the inputs is
/// refused as malformed.
pub proof fn lemma_txaux_misaligned(tx: TxModel, witnesses: Seq<WitnessModel>, rest: Seq<u8>)
    requires
        tx.wf(),
        witnesses.len() <= u64::MAX,
        forall|i: int| 0 <= i < witnesses.len() ==> (#[trigger] witnesses[i]).wf(),
        witnesses.len() != tx.inputs.len(),
    ensures
        parse_txaux(
            enc_array(2) + enc_tx(tx) + enc_list(witnesses, witness_encoder()) + rest,
        ) == Err::<(TxAuxModel, Seq<u8>), _>(Error::MalformedStructure),
{
    let t = enc_tx(tx);
    let w = enc_list(witnesses, witness_encoder());
    assert(enc_array(2) + t + w + rest =~= enc_array(2) + (t + (w + rest)));
    lemma_parse_typed(MAJOR_ARRAY, 2, t + (w + rest));
    lemma_tx_round_trip(tx, w + rest);
    assert forall|k: int, r: Seq<u8>| 0 <= k < witnesses.len() implies #[trigger] round_trips(
        witnesses[k],
        r,
        witness_encoder(),
        witness_parser(),
    ) by {
        lemma_witness_round_trip(witnesses[k], r);
    }
    lemma_list_round_trip(witnesses, witness_encoder(), witness_parser(), rest);
}

/// The summary of a batch of transactions: how many there are, the root of
/// the Merkle tree over them, and the digest of their witnesses.
#[derive(Debug, PartialEq, Eq, Clone)]
pub struct TxProof {
    pub number: u32,
    pub root: crate::hash::Hash<Tx>,
    pub witnesses_hash: crate::hash::Hash<Vec<TxInWitness>>,
}

/// A summary as a mathematical value.
pub struct TxProofModel {
    pub number: u32,
    pub root: Seq<u8>,
    pub witnesses_hash: Seq<u8>,
}

impl View for TxProof {
    type V = TxProofModel;

    open spec fn view(&self) -> TxProofModel {
        TxProofModel {
            number: self.number,
            root: self.root@,
            witnesses_hash: self.witnesses_hash@,
        }
    }
}

impl TxProofModel {
    /// Both digests have 32 bytes.
    pub open spec fn wf(self) -> bool {
        self.root.len() == 32 && self.witnesses_hash.len() == 32
    }
}

/// A summary: an array of three, the count, the root, the digest.
pub open spec fn enc_txproof(p: TxProofModel) -> Seq<u8> {
    enc_array(3) + enc_uint(p.number as u64) + enc_bs(p.root) + enc_bs(p.witnesses_hash)
}

/// Reads a summary.
pub open spec fn parse_txproof(s: Seq<u8>) -> Result<(TxProofModel, Seq<u8>), Error> {
    match parse_array(s) {
        Err(e) => Err(e),
        Ok((n, r0)) => if n != 3 {
            Err(Error::MalformedStructure)
        } else {
            match parse_uint(r0) {
                Err(e) => Err(e),
                Ok((v, r1)) => if v > u32::MAX {
                    Err(Error::OutOfBounds)
                } else {
                    match parse_hash(r1) {
                        Err(e) => Err(e),
                        Ok((root, r2)) => match parse_hash(r2) {
                            Err(e) => Err(e),
                            Ok((wh, r3)) => Ok(
                                (
                                    TxProofModel {
                                        number: v as u32,
                                        root: root,
                                        witnesses_hash: wh,
                                    },
                                    r3,
                                ),
                            ),
                        },
                    }
                },
            }
        },
    }
}

impl TxProof {
    /// The summary of `number` transactions.
    pub fn new(
        number: u32,
        root: crate::hash::Hash<Tx>,
        witnesses_hash: crate::hash::Hash<Vec<TxInWitness>>,
    ) -> (p: Self)
        ensures
            p.number == number,
            p.root == root,
            p.witnesses_hash == witnesses_hash,
    {
        TxProof { number, root, witnesses_hash }
    }

    /// Appends the summary.
    pub fn encode(&self, buf: &mut Vec<u8>)
        ensures
            final(buf)@ == old(buf)@ + enc_txproof(self@),
    {
        array_start(3, buf);
        uint(self.number as u64, buf);
        self.root.encode(buf);
        self.witnesses_hash.encode(buf);
        proof {
            assert(buf@ =~= old(buf)@ + enc_txproof(self@));
        }
    }

    /// Reads a summary.
    pub fn decode(decoder: &mut Decoder) -> (r: Result<Self, Error>)
        ensures
            match r {
                Ok(p) => parse_txproof(old(decoder)@) == Ok::<_, Error>((p@, final(decoder)@)),
                Err(e) => parse_txproof(old(decoder)@) == Err::<(TxProofModel, Seq<u8>), _>(e),
            },
    {
        let n = match decoder.array_start() {
            Ok(n) => n,
            Err(e) => {
                return Err(e);
            },
        };
        if n != 3 {
            return Err(Error::MalformedStructure);
        }
        let v = match decoder.uint() {
            Ok(v) => v,
            Err(e) => {
                return Err(e);
            },
        };
        if v > 0xFFFF_FFFF {
            return Err(Error::OutOfBounds);
        }
        let root = match crate::hash::Hash::decode(decoder) {
            Ok(h) => h,
            Err(e) => {
                return Err(e);
            },
        };
        let witnesses_hash = match crate::hash::Hash::decode(decoder) {
            Ok(h) => h,
            Err(e) => {
                return Err(e);
            },
        };
        Ok(TxProof { number: v as u32, root, witnesses_hash })
    }
}

/// Decoding an encoded summary gives the summary back.
pub proof fn lemma_txproof_round_trip(p: TxProofModel, rest: Seq<u8>)
    requires
        p.wf(),
    ensures
        parse_txproof(enc_txproof(p) + rest) == Ok::<_, Error>((p, rest)),
{
    let n = enc_uint(p.number as u64);
    let a = enc_bs(p.root);
    let b = enc_bs(p.witnesses_hash);
    assert(enc_txproof(p) + rest =~= enc_array(3) + (n + (a + (b + rest))));
    lemma_parse_typed(MAJOR_ARRAY, 3, n + (a + (b + rest)));
    lemma_parse_typed(MAJOR_UINT, p.number as u64, a + (b + rest));
    lemma_parse_bs(p.root, b + rest);
    lemma_parse_bs(p.witnesses_hash, rest);
}

} // verus!
