use wallet_crypto::address::{AddrType, HDAddressPayload, StakeDistribution};
use wallet_crypto::coin::Coin;
use wallet_crypto::decode::Decoder;
use wallet_crypto::error::Error;
use wallet_crypto::txout::TxOut;

const TX_OUT: &'static [u8] = &[
    0x82, 0x82, 0xd8, 0x18, 0x58, 0x29, 0x83, 0x58, 0x1c, 0x83, 0xee, 0xa1, 0xb5, 0xec, 0x8e,
    0x80, 0x26, 0x65, 0x81, 0x46, 0x4a, 0xee, 0x0e, 0x2d, 0x6a, 0x45, 0xfd, 0x6d, 0x7b, 0x9e,
    0x1a, 0x98, 0x3a, 0x50, 0x48, 0xcd, 0x15, 0xa1, 0x01, 0x46, 0x45, 0x01, 0x02, 0x03, 0x04,
    0x05, 0x00, 0x1a, 0x9d, 0x45, 0x88, 0x4a, 0x18, 0x2a,
];

#[test]
fn txout_decode() {
    let mut decoder = Decoder::new();
    decoder.extend(TX_OUT);
    let txout = TxOut::decode(&mut decoder).expect("to retrieve a TxOut");

    let hdap = HDAddressPayload::from_vec(vec![1, 2, 3, 4, 5]);
    assert_eq!(Coin::new(42).unwrap(), txout.value);
    assert_eq!(AddrType::ATPubKey, txout.address.addr_type);
    assert_eq!(
        StakeDistribution::new_bootstrap_era(),
        txout.address.attributes.stake_distribution
    );
    assert_eq!(txout.address.attributes.derivation_path, Some(hdap));
}

#[test]
fn txout_encode_matches_vector() {
    let mut decoder = Decoder::new();
    decoder.extend(TX_OUT);
    let txout = TxOut::decode(&mut decoder).unwrap();
    assert_eq!(decoder.remaining(), 0);
    let mut buf = Vec::new();
    txout.encode(&mut buf);
    assert_eq!(&buf[..], TX_OUT);
}

#[test]
fn txout_wrong_array_length() {
    let mut bytes = TX_OUT.to_vec();
    bytes[0] = 0x83;
    let mut decoder = Decoder::from_vec(bytes);
    assert_eq!(TxOut::decode(&mut decoder), Err(Error::MalformedStructure));
    assert_eq!(decoder.remaining(), TX_OUT.len() - 1);
}

#[test]
fn txout_checksum_mismatch() {
    let mut bytes = TX_OUT.to_vec();
    bytes[40] ^= 0x01;
    let mut decoder = Decoder::from_vec(bytes);
    assert_eq!(TxOut::decode(&mut decoder), Err(Error::ChecksumMismatch));
}

#[test]
fn txout_truncated() {
    let mut decoder = Decoder::from_vec(TX_OUT[..TX_OUT.len() - 1].to_vec());
    assert_eq!(TxOut::decode(&mut decoder), Err(Error::UnexpectedEnd));
}
