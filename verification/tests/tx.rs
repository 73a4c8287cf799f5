use wallet_crypto::address::{
    AddrType, Attributes, ExtendedAddr, HDAddressPayload, StakeDistribution,
};
use wallet_crypto::coin::Coin;
use wallet_crypto::decode::Decoder;
use wallet_crypto::encode;
use wallet_crypto::error::Error;
use wallet_crypto::tx::{Tx, TxAux, TxId, TxIn, TxInWitness, TxProof};
use wallet_crypto::txout::TxOut;

fn address(path: Option<Vec<u8>>, stake: StakeDistribution, kind: AddrType) -> ExtendedAddr {
    let attributes = Attributes {
        derivation_path: path.map(HDAddressPayload::from_vec),
        stake_distribution: stake,
    };
    ExtendedAddr::new(vec![0xab; 28], attributes, kind)
}

fn sample_tx() -> Tx {
    let inputs = vec![
        TxIn::new(TxId::new(b"first"), 0),
        TxIn::new(TxId::new(b"second"), 70000),
    ];
    let outputs = vec![
        TxOut::new(
            address(Some(vec![1, 2, 3, 4, 5]), StakeDistribution::new_bootstrap_era(), AddrType::ATPubKey),
            Coin::new(42).unwrap(),
        ),
        TxOut::new(
            address(None, StakeDistribution::SingleKeyDistr(vec![0x11; 28]), AddrType::ATRedeem),
            Coin::new(45000000000000000).unwrap(),
        ),
        TxOut::new(
            address(Some(vec![]), StakeDistribution::SingleKeyDistr(vec![0x22; 28]), AddrType::ATScript),
            Coin::new(0).unwrap(),
        ),
    ];
    Tx::new(inputs, outputs)
}

fn sample_witnesses() -> Vec<TxInWitness> {
    vec![
        TxInWitness::PkWitness(vec![1; 64], vec![2; 64]),
        TxInWitness::RedeemWitness(vec![3; 32], vec![4; 64]),
    ]
}

#[test]
fn tx_decode() {
    let tx = sample_tx();
    let mut buf = Vec::new();
    tx.encode(&mut buf);
    assert_eq!(buf[0], 0x83);
    assert_eq!(buf[1], 0x82);
    assert_eq!(buf[buf.len() - 1], 0xa0);
    let mut decoder = Decoder::new();
    decoder.extend(&buf);
    let back = Tx::decode(&mut decoder).expect("to retrieve a Tx");
    assert_eq!(back, tx);
    assert_eq!(decoder.remaining(), 0);
}

#[test]
fn block_decode() {
    let aux = TxAux::new(sample_tx(), sample_witnesses()).unwrap();
    let proof = TxProof::new(1, TxId::new(b"root"), wallet_crypto::hash::Hash::new(b"witnesses"));
    let mut buf = Vec::new();
    proof.encode(&mut buf);
    aux.encode(&mut buf);
    let mut decoder = Decoder::new();
    decoder.extend(&buf);
    assert_eq!(TxProof::decode(&mut decoder), Ok(proof));
    let back = TxAux::decode(&mut decoder).expect("to retrieve a TxAux");
    assert_eq!(back, aux);
    assert_eq!(back.tx(), &sample_tx());
    assert_eq!(back.witnesses(), &sample_witnesses());
    assert_eq!(decoder.remaining(), 0);
}

#[test]
fn txaux_wants_one_witness_per_input() {
    assert!(TxAux::new(sample_tx(), sample_witnesses()).is_some());
    assert!(TxAux::new(sample_tx(), vec![]).is_none());
    let mut three = sample_witnesses();
    three.push(TxInWitness::ScriptWitness(vec![], vec![]));
    assert!(TxAux::new(sample_tx(), three).is_none());
    assert!(TxAux::new(Tx::new(vec![], vec![]), vec![]).is_some());
}

#[test]
fn txaux_decode_refuses_misaligned() {
    let mut buf = Vec::new();
    encode::array_start(2, &mut buf);
    sample_tx().encode(&mut buf);
    encode::array_start(1, &mut buf);
    TxInWitness::PkWitness(vec![1; 64], vec![2; 64]).encode(&mut buf);
    let mut decoder = Decoder::from_vec(buf);
    assert_eq!(TxAux::decode(&mut decoder), Err(Error::MalformedStructure));
}

#[test]
fn txin_exact_bytes() {
    let input = TxIn::new(TxId::from_bytes([9; 32]), 258);
    let mut buf = Vec::new();
    input.encode(&mut buf);
    let mut expected = vec![0x82, 0x58, 0x20];
    expected.extend_from_slice(&[9; 32]);
    expected.extend_from_slice(&[0x19, 0x01, 0x02]);
    assert_eq!(buf, expected);
    let mut decoder = Decoder::from_vec(buf);
    assert_eq!(TxIn::decode(&mut decoder), Ok(input));
}

#[test]
fn txin_refusals() {
    let mut buf = Vec::new();
    encode::array_start(3, &mut buf);
    let mut decoder = Decoder::from_vec(buf);
    assert_eq!(TxIn::decode(&mut decoder), Err(Error::MalformedStructure));

    let mut buf = Vec::new();
    encode::array_start(2, &mut buf);
    encode::bs(&[0; 31], &mut buf);
    encode::uint(0, &mut buf);
    let mut decoder = Decoder::from_vec(buf);
    assert_eq!(TxIn::decode(&mut decoder), Err(Error::InvalidLength));

    let mut buf = Vec::new();
    encode::array_start(2, &mut buf);
    encode::bs(&[0; 32], &mut buf);
    encode::uint(4294967296, &mut buf);
    let mut decoder = Decoder::from_vec(buf);
    assert_eq!(TxIn::decode(&mut decoder), Err(Error::OutOfBounds));
}

#[test]
fn witness_forms_round_trip() {
    let all = vec![
        TxInWitness::PkWitness(vec![5; 64], vec![6; 64]),
        TxInWitness::ScriptWitness(vec![1, 2, 3], vec![]),
        TxInWitness::RedeemWitness(vec![7; 32], vec![8; 64]),
    ];
    for (k, w) in all.into_iter().enumerate() {
        let mut buf = Vec::new();
        w.encode(&mut buf);
        assert_eq!(buf[0], 0x83);
        assert_eq!(buf[1], k as u8);
        let mut decoder = Decoder::from_vec(buf);
        assert_eq!(TxInWitness::decode(&mut decoder), Ok(w));
        assert_eq!(decoder.remaining(), 0);
    }
}

#[test]
fn witness_refusals() {
    let mut buf = Vec::new();
    encode::array_start(3, &mut buf);
    encode::uint(3, &mut buf);
    encode::bs(&[], &mut buf);
    encode::bs(&[], &mut buf);
    let mut decoder = Decoder::from_vec(buf);
    assert_eq!(TxInWitness::decode(&mut decoder), Err(Error::Unsupported));

    let mut buf = Vec::new();
    encode::array_start(3, &mut buf);
    encode::uint(0, &mut buf);
    encode::bs(&[0; 64], &mut buf);
    encode::bs(&[0; 63], &mut buf);
    let mut decoder = Decoder::from_vec(buf);
    assert_eq!(TxInWitness::decode(&mut decoder), Err(Error::InvalidLength));

    let mut buf = Vec::new();
    encode::array_start(2, &mut buf);
    let mut decoder = Decoder::from_vec(buf);
    assert_eq!(TxInWitness::decode(&mut decoder), Err(Error::MalformedStructure));
}

#[test]
fn tx_refuses_attributes() {
    let mut buf = Vec::new();
    encode::array_start(3, &mut buf);
    encode::array_start(0, &mut buf);
    encode::array_start(0, &mut buf);
    encode::map_start(1, &mut buf);
    let mut decoder = Decoder::from_vec(buf);
    assert_eq!(Tx::decode(&mut decoder), Err(Error::Unsupported));
}

#[test]
fn tx_empty_exact_bytes() {
    let mut buf = Vec::new();
    Tx::new(vec![], vec![]).encode(&mut buf);
    assert_eq!(buf, vec![0x83, 0x80, 0x80, 0xa0]);
}

#[test]
fn txproof_round_trip() {
    let proof = TxProof::new(7, TxId::from_bytes([1; 32]), wallet_crypto::hash::Hash::from_bytes([2; 32]));
    let mut buf = Vec::new();
    proof.encode(&mut buf);
    assert_eq!(buf.len(), 1 + 1 + 34 + 34);
    assert_eq!(&buf[..2], &[0x83, 0x07]);
    let mut decoder = Decoder::from_vec(buf);
    assert_eq!(TxProof::decode(&mut decoder), Ok(proof));
}

#[test]
fn address_round_trip() {
    let cases = vec![
        address(None, StakeDistribution::new_bootstrap_era(), AddrType::ATPubKey),
        address(Some(vec![1, 2, 3, 4, 5]), StakeDistribution::new_bootstrap_era(), AddrType::ATScript),
        address(None, StakeDistribution::SingleKeyDistr(vec![3; 28]), AddrType::ATRedeem),
        address(Some(vec![0; 300]), StakeDistribution::SingleKeyDistr(vec![3; 28]), AddrType::ATPubKey),
    ];
    for a in cases {
        let mut buf = Vec::new();
        a.encode(&mut buf);
        let mut decoder = Decoder::from_vec(buf);
        assert_eq!(ExtendedAddr::decode(&mut decoder), Ok(a));
        assert_eq!(decoder.remaining(), 0);
    }
}

#[test]
fn address_refusals() {
    let mut buf = Vec::new();
    encode::array_start(3, &mut buf);
    encode::bs(&[0; 27], &mut buf);
    let mut decoder = Decoder::from_vec(buf);
    assert_eq!(ExtendedAddr::decode(&mut decoder), Err(Error::InvalidLength));

    let mut buf = Vec::new();
    encode::array_start(3, &mut buf);
    encode::bs(&[0; 28], &mut buf);
    encode::map_start(0, &mut buf);
    encode::uint(3, &mut buf);
    let mut decoder = Decoder::from_vec(buf);
    assert_eq!(ExtendedAddr::decode(&mut decoder), Err(Error::Unsupported));

    let mut buf = Vec::new();
    encode::array_start(3, &mut buf);
    encode::bs(&[0; 28], &mut buf);
    encode::map_start(3, &mut buf);
    let mut decoder = Decoder::from_vec(buf);
    assert_eq!(ExtendedAddr::decode(&mut decoder), Err(Error::Unsupported));
}

#[test]
fn txout_round_trip() {
    for out in sample_tx().outputs {
        let mut buf = Vec::new();
        out.encode(&mut buf);
        let mut decoder = Decoder::from_vec(buf);
        assert_eq!(TxOut::decode(&mut decoder), Ok(out));
        assert_eq!(decoder.remaining(), 0);
    }
}

#[test]
fn txout_refuses_bytes_after_address() {
    let a = address(None, StakeDistribution::new_bootstrap_era(), AddrType::ATPubKey);
    let mut payload = Vec::new();
    a.encode(&mut payload);
    payload.push(0x00);
    let mut buf = Vec::new();
    encode::array_start(2, &mut buf);
    wallet_crypto::txout::encode_with_crc32(&payload, &mut buf);
    encode::uint(1, &mut buf);
    let mut decoder = Decoder::from_vec(buf);
    assert_eq!(TxOut::decode(&mut decoder), Err(Error::MalformedStructure));
}

#[test]
fn txout_refuses_amount_above_ceiling() {
    let a = address(None, StakeDistribution::new_bootstrap_era(), AddrType::ATPubKey);
    let mut payload = Vec::new();
    a.encode(&mut payload);
    let mut buf = Vec::new();
    encode::array_start(2, &mut buf);
    wallet_crypto::txout::encode_with_crc32(&payload, &mut buf);
    encode::uint(45000000000000001, &mut buf);
    let mut decoder = Decoder::from_vec(buf);
    assert_eq!(TxOut::decode(&mut decoder), Err(Error::OutOfBounds));
}

#[test]
fn attributes_exact_bytes() {
    let mut buf = Vec::new();
    Attributes {
        derivation_path: Some(HDAddressPayload::from_vec(vec![1, 2, 3, 4, 5])),
        stake_distribution: StakeDistribution::new_bootstrap_era(),
    }
    .encode(&mut buf);
    assert_eq!(buf, vec![0xa1, 0x01, 0x46, 0x45, 1, 2, 3, 4, 5]);

    let mut buf = Vec::new();
    Attributes {
        derivation_path: None,
        stake_distribution: StakeDistribution::SingleKeyDistr(vec![7; 28]),
    }
    .encode(&mut buf);
    let mut expected = vec![0xa1, 0x00, 0x58, 0x20, 0x82, 0x00, 0x58, 0x1c];
    expected.extend_from_slice(&[7; 28]);
    assert_eq!(buf, expected);
}

#[test]
fn attributes_keys_must_rise() {
    let mut buf = Vec::new();
    encode::map_start(2, &mut buf);
    encode::uint(1, &mut buf);
    let mut decoder = Decoder::from_vec(buf);
    assert_eq!(Attributes::decode(&mut decoder), Err(Error::Unsupported));
}

#[test]
fn attributes_bootstrap_era_written_out() {
    let mut buf = Vec::new();
    encode::map_start(1, &mut buf);
    encode::uint(0, &mut buf);
    encode::bs(&[0x81, 0x01], &mut buf);
    let mut decoder = Decoder::from_vec(buf);
    let a = Attributes::decode(&mut decoder).unwrap();
    assert_eq!(a.stake_distribution, StakeDistribution::new_bootstrap_era());
    assert_eq!(a.derivation_path, None);
}

#[test]
fn decoder_extend_keeps_position() {
    let mut decoder = Decoder::new();
    decoder.extend(&[0x01, 0x18]);
    assert_eq!(decoder.uint(), Ok(1));
    assert_eq!(decoder.uint(), Err(Error::UnexpectedEnd));
    decoder.extend(&[0x18, 0x2a]);
    assert_eq!(decoder.remaining(), 3);
}
