//! Extended addresses: the root digest of an address, its attributes and
//! the kind of spending condition it stands for.
//!
//! On the wire an address is an array of three: the root, a map of
//! attributes, and the kind.  The map holds the stake distribution under
//! key 0, left out for the bootstrap era, and the derivation path under key
//! 1, left out when there is none; each is wrapped in a byte string.

use vstd::prelude::*;
use crate::cbor::{
    enc_array, enc_bs, enc_map, enc_uint, parse_array, parse_bs, parse_map, parse_uint,
    lemma_parse_bs, lemma_parse_typed, lemma_head_len, MAJOR_ARRAY, MAJOR_MAP, MAJOR_UINT,
    MAJOR_BYTES,
};
use crate::decode::Decoder;
use crate::encode::{array_start, bs, map_start, uint};
use crate::error::Error;

verus! {

/// The kind of spending condition behind an address.
#[derive(Debug, PartialEq, Eq, Structural, Clone, Copy)]
pub enum AddrType {
    ATPubKey,
    ATScript,
    ATRedeem,
}

/// The number that stands for a kind on the wire.
pub open spec fn addr_type_code(t: AddrType) -> u64 {
    match t {
        AddrType::ATPubKey => 0,
        AddrType::ATScript => 1,
        AddrType::ATRedeem => 2,
    }
}

/// The encrypted derivation path carried by an address.
#[derive(Debug, PartialEq, Eq, Clone)]
pub struct HDAddressPayload(pub Vec<u8>);

impl HDAddressPayload {
    /// The payload that holds `bytes`.
    pub fn from_vec(bytes: Vec<u8>) -> (p: Self)
        ensures
            p.0@ == bytes@,
    {
        HDAddressPayload(bytes)
    }
}

/// Who receives the stake of an address.
#[derive(Debug, PartialEq, Eq, Clone)]
pub enum StakeDistribution {
    BootstrapEraDistr,
    SingleKeyDistr(Vec<u8>),
}

/// The attributes of an address.
#[derive(Debug, PartialEq, Eq, Clone)]
pub struct Attributes {
    pub derivation_path: Option<HDAddressPayload>,
    pub stake_distribution: StakeDistribution,
}

/// An address with its attributes and kind.
#[derive(Debug, PartialEq, Eq, Clone)]
pub struct ExtendedAddr {
    pub addr: Vec<u8>,
    pub attributes: Attributes,
    pub addr_type: AddrType,
}

/// A stake distribution as a mathematical value.
pub enum StakeModel {
    BootstrapEraDistr,
    SingleKeyDistr(Seq<u8>),
}

/// The attributes of an address as a mathematical value.
pub struct AttributesModel {
    pub derivation_path: Option<Seq<u8>>,
    pub stake_distribution: StakeModel,
}

/// An address as a mathematical value.
pub struct AddrModel {
    pub addr: Seq<u8>,
    pub attributes: AttributesModel,
    pub addr_type: AddrType,
}

impl View for StakeDistribution {
    type V = StakeModel;

    open spec fn view(&self) -> StakeModel {
        match self {
            StakeDistribution::BootstrapEraDistr => StakeModel::BootstrapEraDistr,
            StakeDistribution::SingleKeyDistr(id) => StakeModel::SingleKeyDistr(id@),
        }
    }
}

impl View for Attributes {
    type V = AttributesModel;

    open spec fn view(&self) -> AttributesModel {
        AttributesModel {
            derivation_path: match self.derivation_path {
                Some(p) => Some(p.0@),
                None => None,
            },
            stake_distribution: self.stake_distribution@,
        }
    }
}

impl View for ExtendedAddr {
    type V = AddrModel;

    open spec fn view(&self) -> AddrModel {
        AddrModel { addr: self.addr@, attributes: self.attributes@, addr_type: self.addr_type }
    }
}

impl StakeModel {
    /// A stakeholder identifier has 28 bytes.
    pub open spec fn wf(self) -> bool {
        match self {
            StakeModel::BootstrapEraDistr => true,
            StakeModel::SingleKeyDistr(id) => id.len() == 28,
        }
    }
}

impl AttributesModel {
    /// The stake distribution is well formed, and the derivation path is
    /// short enough for its wrapped length to fit a header.
    pub open spec fn wf(self) -> bool {
        &&& self.stake_distribution.wf()
        &&& match self.derivation_path {
            Some(p) => p.len() + 9 <= u64::MAX,
            None => true,
        }
    }

    /// How many entries the attribute map holds.
    pub open spec fn entries(self) -> u64 {
        let a: u64 = if self.stake_distribution is SingleKeyDistr {
            1
        } else {
            0
        };
        let b: u64 = if self.derivation_path is Some {
            1
        } else {
            0
        };
        (a + b) as u64
    }
}

impl AddrModel {
    /// The root has 28 bytes and the attributes are well formed.
    pub open spec fn wf(self) -> bool {
        self.addr.len() == 28 && self.attributes.wf()
    }
}

/// A stake distribution in its own form.
pub open spec fn enc_stake(sd: StakeModel) -> Seq<u8> {
    match sd {
        StakeModel::BootstrapEraDistr => enc_array(1) + enc_uint(1),
        StakeModel::SingleKeyDistr(id) => enc_array(2) + enc_uint(0) + enc_bs(id),
    }
}

/// The map entry of a stake distribution: nothing for the bootstrap era,
/// else key 0 and the wrapped distribution.
pub open spec fn enc_stake_entry(sd: StakeModel) -> Seq<u8> {
    match sd {
        StakeModel::BootstrapEraDistr => Seq::empty(),
        StakeModel::SingleKeyDistr(id) => enc_uint(0) + enc_bs(enc_stake(sd)),
    }
}

/// The map entry of a derivation path: nothing where there is none, else
/// key 1 and the path as a byte string, wrapped in a byte string.
pub open spec fn enc_path_entry(path: Option<Seq<u8>>) -> Seq<u8> {
    match path {
        None => Seq::empty(),
        Some(p) => enc_uint(1) + enc_bs(enc_bs(p)),
    }
}

/// The attribute map: the entry count, then the entries by rising key.
pub open spec fn enc_attributes(a: AttributesModel) -> Seq<u8> {
    enc_map(a.entries()) + enc_stake_entry(a.stake_distribution) + enc_path_entry(
        a.derivation_path,
    )
}

/// An address: an array of three, the root, the attributes, the kind.
pub open spec fn enc_addr(a: AddrModel) -> Seq<u8> {
    enc_array(3) + enc_bs(a.addr) + enc_attributes(a.attributes) + enc_uint(
        addr_type_code(a.addr_type),
    )
}

/// Reads a stake distribution: `[1]` for the bootstrap era, `[0, id]` for a
/// single stakeholder.
pub open spec fn parse_stake(s: Seq<u8>) -> Result<(StakeModel, Seq<u8>), Error> {
    match parse_array(s) {
        Err(e) => Err(e),
        Ok((n, r0)) => match parse_uint(r0) {
            Err(e) => Err(e),
            Ok((k, r1)) => if k == 1 {
                if n == 1 {
                    Ok((StakeModel::BootstrapEraDistr, r1))
                } else {
                    Err(Error::MalformedStructure)
                }
            } else if k == 0 {
                if n == 2 {
                    match parse_bs(r1) {
                        Err(e) => Err(e),
                        Ok((id, r2)) => if id.len() == 28 {
                            Ok((StakeModel::SingleKeyDistr(id), r2))
                        } else {
                            Err(Error::InvalidLength)
                        },
                    }
                } else {
                    Err(Error::MalformedStructure)
                }
            } else {
                Err(Error::Unsupported)
            },
        },
    }
}

/// Reads a byte string that holds a stake distribution and nothing more.
pub open spec fn parse_stake_value(s: Seq<u8>) -> Result<(StakeModel, Seq<u8>), Error> {
    match parse_bs(s) {
        Err(e) => Err(e),
        Ok((inner, rest)) => match parse_stake(inner) {
            Err(e) => Err(e),
            Ok((sd, left)) => if left.len() == 0 {
                Ok((sd, rest))
            } else {
                Err(Error::MalformedStructure)
            },
        },
    }
}

/// Reads a byte string that holds a byte string and nothing more.
pub open spec fn parse_path_value(s: Seq<u8>) -> Result<(Seq<u8>, Seq<u8>), Error> {
    match parse_bs(s) {
        Err(e) => Err(e),
        Ok((inner, rest)) => match parse_bs(inner) {
            Err(e) => Err(e),
            Ok((p, left)) => if left.len() == 0 {
                Ok((p, rest))
            } else {
                Err(Error::MalformedStructure)
            },
        },
    }
}

/// Reads the key 1 and the derivation path under it.
pub open spec fn parse_path_entry(s: Seq<u8>) -> Result<(Seq<u8>, Seq<u8>), Error> {
    match parse_uint(s) {
        Err(e) => Err(e),
        Ok((k, r)) => if k == 1 {
            parse_path_value(r)
        } else {
            Err(Error::Unsupported)
        },
    }
}

/// Reads the attribute map: at most two entries, key 0 before key 1.
pub open spec fn parse_attributes(s: Seq<u8>) -> Result<(AttributesModel, Seq<u8>), Error> {
    match parse_map(s) {
        Err(e) => Err(e),
        Ok((n, r0)) => if n == 0 {
            Ok(
                (
                    AttributesModel {
                        derivation_path: None,
                        stake_distribution: StakeModel::BootstrapEraDistr,
                    },
                    r0,
                ),
            )
        } else if n > 2 {
            Err(Error::Unsupported)
        } else {
            match parse_uint(r0) {
                Err(e) => Err(e),
                Ok((k, r1)) => if k == 0 {
                    match parse_stake_value(r1) {
                        Err(e) => Err(e),
                        Ok((sd, r2)) => if n == 1 {
                            Ok(
                                (
                                    AttributesModel {
                                        derivation_path: None,
                                        stake_distribution: sd,
                                    },
                                    r2,
                                ),
                            )
                        } else {
                            match parse_path_entry(r2) {
                                Err(e) => Err(e),
                                Ok((p, r3)) => Ok(
                                    (
                                        AttributesModel {
                                            derivation_path: Some(p),
                                            stake_distribution: sd,
                                        },
                                        r3,
                                    ),
                                ),
                            }
                        },
                    }
                } else if k == 1 && n == 1 {
                    match parse_path_value(r1) {
                        Err(e) => Err(e),
                        Ok((p, r2)) => Ok(
                            (
                                AttributesModel {
                                    derivation_path: Some(p),
                                    stake_distribution: StakeModel::BootstrapEraDistr,
                                },
                                r2,
                            ),
                        ),
                    }
                } else {
                    Err(Error::Unsupported)
                },
            }
        },
    }
}

/// Reads the kind of an address.
pub open spec fn parse_addr_type(s: Seq<u8>) -> Result<(AddrType, Seq<u8>), Error> {
    match parse_uint(s) {
        Err(e) => Err(e),
        Ok((k, r)) => if k == 0 {
            Ok((AddrType::ATPubKey, r))
        } else if k == 1 {
            Ok((AddrType::ATScript, r))
        } else if k == 2 {
            Ok((AddrType::ATRedeem, r))
        } else {
            Err(Error::Unsupported)
        },
    }
}

/// Reads an address: an array of exactly three, the root of 28 bytes, the
/// attributes, the kind.
pub open spec fn parse_addr(s: Seq<u8>) -> Result<(AddrModel, Seq<u8>), Error> {
    match parse_array(s) {
        Err(e) => Err(e),
        Ok((n, r0)) => if n != 3 {
            Err(Error::MalformedStructure)
        } else {
            match parse_bs(r0) {
                Err(e) => Err(e),
                Ok((root, r1)) => if root.len() != 28 {
                    Err(Error::InvalidLength)
                } else {
                    match parse_attributes(r1) {
                        Err(e) => Err(e),
                        Ok((attrs, r2)) => match parse_addr_type(r2) {
                            Err(e) => Err(e),
                            Ok((t, r3)) => Ok(
                                (AddrModel { addr: root, attributes: attrs, addr_type: t }, r3),
                            ),
                        },
                    }
                },
            }
        },
    }
}

impl StakeDistribution {
    /// The distribution of the bootstrap era.
    pub fn new_bootstrap_era() -> (sd: Self)
        ensures
            sd@ == StakeModel::BootstrapEraDistr,
    {
        StakeDistribution::BootstrapEraDistr
    }

    /// Appends the distribution in its own form, not yet wrapped.
    pub fn encode(&self, buf: &mut Vec<u8>)
        ensures
            final(buf)@ == old(buf)@ + enc_stake(self@),
    {
        match self {
            StakeDistribution::BootstrapEraDistr => {
                array_start(1, buf);
                uint(1, buf);
                proof {
                    assert(buf@ =~= old(buf)@ + enc_stake(self@));
                }
            },
            StakeDistribution::SingleKeyDistr(id) => {
                array_start(2, buf);
                uint(0, buf);
                bs(id.as_slice(), buf);
                proof {
                    assert(buf@ =~= old(buf)@ + enc_stake(self@));
                }
            },
        }
    }

    /// Reads a distribution in its own form.
    pub fn decode(decoder: &mut Decoder) -> (r: Result<Self, Error>)
        ensures
            match r {
                Ok(sd) => parse_stake(old(decoder)@) == Ok::<_, Error>((sd@, final(decoder)@)),
                Err(e) => parse_stake(old(decoder)@) == Err::<(StakeModel, Seq<u8>), _>(e),
            },
    {
        let n = match decoder.array_start() {
            Ok(n) => n,
            Err(e) => {
                return Err(e);
            },
        };
        let k = match decoder.uint() {
            Ok(k) => k,
            Err(e) => {
                return Err(e);
            },
        };
        if k == 1 {
            if n == 1 {
                Ok(StakeDistribution::BootstrapEraDistr)
            } else {
                Err(Error::MalformedStructure)
            }
        } else if k == 0 {
            if n == 2 {
                match decoder.bs() {
                    Err(e) => Err(e),
                    Ok(id) => if id.len() == 28 {
                        Ok(StakeDistribution::SingleKeyDistr(id))
                    } else {
                        Err(Error::InvalidLength)
                    },
                }
            } else {
                Err(Error::MalformedStructure)
            }
        } else {
            Err(Error::Unsupported)
        }
    }
}

fn decode_stake_value(decoder: &mut Decoder) -> (r: Result<StakeDistribution, Error>)
    ensures
        match r {
            Ok(sd) => parse_stake_value(old(decoder)@) == Ok::<_, Error>((sd@, final(decoder)@)),
            Err(e) => parse_stake_value(old(decoder)@) == Err::<(StakeModel, Seq<u8>), _>(e),
        },
{
    let inner = match decoder.bs() {
        Ok(b) => b,
        Err(e) => {
            return Err(e);
        },
    };
    let mut sub = Decoder::from_vec(inner);
    let sd = match StakeDistribution::decode(&mut sub) {
        Ok(sd) => sd,
        Err(e) => {
            return Err(e);
        },
    };
    if sub.remaining() == 0 {
        Ok(sd)
    } else {
        Err(Error::MalformedStructure)
    }
}

fn decode_path_value(decoder: &mut Decoder) -> (r: Result<HDAddressPayload, Error>)
    ensures
        match r {
            Ok(p) => parse_path_value(old(decoder)@) == Ok::<_, Error>((p.0@, final(decoder)@)),
            Err(e) => parse_path_value(old(decoder)@) == Err::<(Seq<u8>, Seq<u8>), _>(e),
        },
{
    let inner = match decoder.bs() {
        Ok(b) => b,
        Err(e) => {
            return Err(e);
        },
    };
    let mut sub = Decoder::from_vec(inner);
    let p = match sub.bs() {
        Ok(p) => p,
        Err(e) => {
            return Err(e);
        },
    };
    if sub.remaining() == 0 {
        Ok(HDAddressPayload(p))
    } else {
        Err(Error::MalformedStructure)
    }
}

fn decode_path_entry(decoder: &mut Decoder) -> (r: Result<HDAddressPayload, Error>)
    ensures
        match r {
            Ok(p) => parse_path_entry(old(decoder)@) == Ok::<_, Error>((p.0@, final(decoder)@)),
            Err(e) => parse_path_entry(old(decoder)@) == Err::<(Seq<u8>, Seq<u8>), _>(e),
        },
{
    let k = match decoder.uint() {
        Ok(k) => k,
        Err(e) => {
            return Err(e);
        },
    };
    if k != 1 {
        return Err(Error::Unsupported);
    }
    decode_path_value(decoder)
}

impl Attributes {
    /// Appends the attribute map.
    pub fn encode(&self, buf: &mut Vec<u8>)
        ensures
            final(buf)@ == old(buf)@ + enc_attributes(self@),
    {
        let a: u64 = match self.stake_distribution {
            StakeDistribution::BootstrapEraDistr => 0,
            StakeDistribution::SingleKeyDistr(_) => 1,
        };
        let b: u64 = match self.derivation_path {
            None => 0,
            Some(_) => 1,
        };
        map_start(a + b, buf);
        match &self.stake_distribution {
            StakeDistribution::BootstrapEraDistr => {},
            StakeDistribution::SingleKeyDistr(_) => {
                let mut inner: Vec<u8> = Vec::new();
                self.stake_distribution.encode(&mut inner);
                uint(0, buf);
                bs(inner.as_slice(), buf);
                proof {
                    assert(inner@ =~= enc_stake(self.stake_distribution@));
                }
            },
        }
        proof {
            assert(buf@ =~= old(buf)@ + (enc_map(self@.entries()) + enc_stake_entry(
                self@.stake_distribution,
            )));
        }
        match &self.derivation_path {
            None => {},
            Some(p) => {
                let mut inner: Vec<u8> = Vec::new();
                bs(p.0.as_slice(), &mut inner);
                uint(1, buf);
                bs(inner.as_slice(), buf);
                proof {
                    assert(inner@ =~= enc_bs(p.0@));
                }
            },
        }
        proof {
            assert(buf@ =~= old(buf)@ + enc_attributes(self@));
        }
    }

    /// Reads the attribute map.
    pub fn decode(decoder: &mut Decoder) -> (r: Result<Self, Error>)
        ensures
            match r {
                Ok(a) => parse_attributes(old(decoder)@) == Ok::<_, Error>(
                    (a@, final(decoder)@),
                ),
                Err(e) => parse_attributes(old(decoder)@) == Err::<(AttributesModel, Seq<u8>), _>(
                    e,
                ),
            },
    {
        let n = match decoder.map_start() {
            Ok(n) => n,
            Err(e) => {
                return Err(e);
            },
        };
        if n == 0 {
            return Ok(
                Attributes {
                    derivation_path: None,
                    stake_distribution: StakeDistribution::BootstrapEraDistr,
                },
            );
        }
        if n > 2 {
            return Err(Error::Unsupported);
        }
        let k = match decoder.uint() {
            Ok(k) => k,
            Err(e) => {
                return Err(e);
            },
        };
        if k == 0 {
            let sd = match decode_stake_value(decoder) {
                Ok(sd) => sd,
                Err(e) => {
                    return Err(e);
                },
            };
            if n == 1 {
                Ok(Attributes { derivation_path: None, stake_distribution: sd })
            } else {
                match decode_path_entry(decoder) {
                    Err(e) => Err(e),
                    Ok(p) => Ok(Attributes { derivation_path: Some(p), stake_distribution: sd }),
                }
            }
        } else if k == 1 && n == 1 {
            match decode_path_value(decoder) {
                Err(e) => Err(e),
                Ok(p) => Ok(
                    Attributes {
                        derivation_path: Some(p),
                        stake_distribution: StakeDistribution::BootstrapEraDistr,
                    },
                ),
            }
        } else {
            Err(Error::Unsupported)
        }
    }
}

fn decode_addr_type(decoder: &mut Decoder) -> (r: Result<AddrType, Error>)
    ensures
        match r {
            Ok(t) => parse_addr_type(old(decoder)@) == Ok::<_, Error>((t, final(decoder)@)),
            Err(e) => parse_addr_type(old(decoder)@) == Err::<(AddrType, Seq<u8>), _>(e),
        },
{
    match decoder.uint() {
        Err(e) => Err(e),
        Ok(k) => if k == 0 {
            Ok(AddrType::ATPubKey)
        } else if k == 1 {
            Ok(AddrType::ATScript)
        } else if k == 2 {
            Ok(AddrType::ATRedeem)
        } else {
            Err(Error::Unsupported)
        },
    }
}

impl ExtendedAddr {
    /// An address of the given root, attributes and kind.
    pub fn new(addr: Vec<u8>, attributes: Attributes, addr_type: AddrType) -> (a: Self)
        ensures
            a.addr@ == addr@,
            a.attributes == attributes,
            a.addr_type == addr_type,
    {
        ExtendedAddr { addr, attributes, addr_type }
    }

    /// Appends the address.
    pub fn encode(&self, buf: &mut Vec<u8>)
        ensures
            final(buf)@ == old(buf)@ + enc_addr(self@),
    {
        array_start(3, buf);
        bs(self.addr.as_slice(), buf);
        self.attributes.encode(buf);
        let code: u64 = match self.addr_type {
            AddrType::ATPubKey => 0,
            AddrType::ATScript => 1,
            AddrType::ATRedeem => 2,
        };
        uint(code, buf);
        proof {
            assert(buf@ =~= old(buf)@ + enc_addr(self@));
        }
    }

    /// Reads an address.
    pub fn decode(decoder: &mut Decoder) -> (r: Result<Self, Error>)
        ensures
            match r {
                Ok(a) => parse_addr(old(decoder)@) == Ok::<_, Error>((a@, final(decoder)@)),
                Err(e) => parse_addr(old(decoder)@) == Err::<(AddrModel, Seq<u8>), _>(e),
            },
    {
        let n = match decoder.array_start() {
            Ok(n) => n,
            Err(e) => {
                return Err(e);
            },
        };
        if n != 3 {
            return Err(Error::MalformedStructure);
        }
        let root = match decoder.bs() {
            Ok(b) => b,
            Err(e) => {
                return Err(e);
            },
        };
        if root.len() != 28 {
            return Err(Error::InvalidLength);
        }
        let attributes = match Attributes::decode(decoder) {
            Ok(a) => a,
            Err(e) => {
                return Err(e);
            },
        };
        match decode_addr_type(decoder) {
            Err(e) => Err(e),
            Ok(addr_type) => Ok(ExtendedAddr { addr: root, attributes, addr_type }),
        }
    }
}

/// The encoding of a stake distribution is short.
pub proof fn lemma_enc_stake_len(sd: StakeModel)
    requires
        sd.wf(),
    ensures
        enc_stake(sd).len() <= 64,
{
    lemma_head_len(MAJOR_ARRAY, 1);
    lemma_head_len(MAJOR_ARRAY, 2);
    lemma_head_len(MAJOR_UINT, 0);
    lemma_head_len(MAJOR_UINT, 1);
    lemma_head_len(MAJOR_BYTES, 28);
}

/// Decoding an encoded stake distribution gives it back.
pub proof fn lemma_stake_round_trip(sd: StakeModel, rest: Seq<u8>)
    requires
        sd.wf(),
    ensures
        parse_stake(enc_stake(sd) + rest) == Ok::<_, Error>((sd, rest)),
{
    match sd {
        StakeModel::BootstrapEraDistr => {
            assert(enc_stake(sd) + rest =~= enc_array(1) + (enc_uint(1) + rest));
            lemma_parse_typed(MAJOR_ARRAY, 1, enc_uint(1) + rest);
            lemma_parse_typed(MAJOR_UINT, 1, rest);
        },
        StakeModel::SingleKeyDistr(id) => {
            assert(enc_stake(sd) + rest =~= enc_array(2) + (enc_uint(0) + (enc_bs(id) + rest)));
            lemma_parse_typed(MAJOR_ARRAY, 2, enc_uint(0) + (enc_bs(id) + rest));
            lemma_parse_typed(MAJOR_UINT, 0, enc_bs(id) + rest);
            lemma_parse_bs(id, rest);
        },
    }
}

/// Decoding a wrapped stake distribution gives it back.
pub proof fn lemma_stake_value_round_trip(sd: StakeModel, rest: Seq<u8>)
    requires
        sd.wf(),
    ensures
        parse_stake_value(enc_bs(enc_stake(sd)) + rest) == Ok::<_, Error>((sd, rest)),
{
    lemma_enc_stake_len(sd);
    lemma_parse_bs(enc_stake(sd), rest);
    lemma_stake_round_trip(sd, Seq::empty());
    assert(enc_stake(sd) + Seq::<u8>::empty() =~= enc_stake(sd));
}

/// Decoding a wrapped derivation path gives it back.
pub proof fn lemma_path_value_round_trip(p: Seq<u8>, rest: Seq<u8>)
    requires
        p.len() + 9 <= u64::MAX,
    ensures
        parse_path_value(enc_bs(enc_bs(p)) + rest) == Ok::<_, Error>((p, rest)),
{
    lemma_head_len(MAJOR_BYTES, p.len() as u64);
    lemma_parse_bs(enc_bs(p), rest);
    lemma_parse_bs(p, Seq::empty());
    assert(enc_bs(p) + Seq::<u8>::empty() =~= enc_bs(p));
}

/// Decoding an encoded attribute map gives the attributes back.
pub proof fn lemma_attributes_round_trip(a: AttributesModel, rest: Seq<u8>)
    requires
        a.wf(),
    ensures
        parse_attributes(enc_attributes(a) + rest) == Ok::<_, Error>((a, rest)),
{
    let se = enc_stake_entry(a.stake_distribution);
    let pe = enc_path_entry(a.derivation_path);
    assert(enc_attributes(a) + rest =~= enc_map(a.entries()) + (se + (pe + rest)));
    lemma_parse_typed(MAJOR_MAP, a.entries(), se + (pe + rest));
    match a.stake_distribution {
        StakeModel::BootstrapEraDistr => {
            assert(se + (pe + rest) =~= pe + rest);
            match a.derivation_path {
                None => {
                    assert(pe + rest =~= rest);
                },
                Some(p) => {
                    let w = enc_bs(enc_bs(p));
                    assert(pe + rest =~= enc_uint(1) + (w + rest));
                    lemma_parse_typed(MAJOR_UINT, 1, w + rest);
                    lemma_path_value_round_trip(p, rest);
                },
            }
        },
        StakeModel::SingleKeyDistr(id) => {
            let w = enc_bs(enc_stake(a.stake_distribution));
            assert(se + (pe + rest) =~= enc_uint(0) + (w + (pe + rest)));
            lemma_parse_typed(MAJOR_UINT, 0, w + (pe + rest));
            lemma_stake_value_round_trip(a.stake_distribution, pe + rest);
            match a.derivation_path {
                None => {
                    assert(pe + rest =~= rest);
                },
                Some(p) => {
                    let w2 = enc_bs(enc_bs(p));
                    assert(pe + rest =~= enc_uint(1) + (w2 + rest));
                    lemma_parse_typed(MAJOR_UINT, 1, w2 + rest);
                    lemma_path_value_round_trip(p, rest);
                },
            }
        },
    }
}

/// Decoding an encoded address gives the address back, and leaves exactly
/// what followed it.
pub proof fn lemma_addr_round_trip(a: AddrModel, rest: Seq<u8>)
    requires
        a.wf(),
    ensures
        parse_addr(enc_addr(a) + rest) == Ok::<_, Error>((a, rest)),
{
    let t = enc_uint(addr_type_code(a.addr_type));
    let at = enc_attributes(a.attributes);
    assert(enc_addr(a) + rest =~= enc_array(3) + (enc_bs(a.addr) + (at + (t + rest))));
    lemma_parse_typed(MAJOR_ARRAY, 3, enc_bs(a.addr) + (at + (t + rest)));
    lemma_parse_bs(a.addr, at + (t + rest));
    lemma_attributes_round_trip(a.attributes, t + rest);
    lemma_parse_typed(MAJOR_UINT, addr_type_code(a.addr_type), rest);
}

} // verus!
