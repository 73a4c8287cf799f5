use wallet_crypto::decode::Decoder;
use wallet_crypto::encode;
use wallet_crypto::error::Error;
use wallet_crypto::tx::{Tx, TxId, TxInWitness};

#[test]
fn hash_from_slice_wants_32_bytes() {
    assert!(TxId::from_slice(&[7u8; 32]).is_some());
    assert!(TxId::from_slice(&[7u8; 31]).is_none());
    assert!(TxId::from_slice(&[7u8; 33]).is_none());
    assert!(TxId::from_slice(&[]).is_none());
}

#[test]
fn hash_from_slice_keeps_bytes() {
    let mut bytes = [0u8; 32];
    for i in 0..32 {
        bytes[i] = (i * 7) as u8;
    }
    let h = TxId::from_slice(&bytes).unwrap();
    assert_eq!(h.as_bytes(), &bytes);
    assert_eq!(h, TxId::from_bytes(bytes));
}

#[test]
fn hash_decode_wrong_length() {
    for n in [31usize, 33] {
        let mut buf = Vec::new();
        encode::bs(&vec![1u8; n], &mut buf);
        let mut decoder = Decoder::from_vec(buf);
        assert_eq!(TxId::decode(&mut decoder), Err(Error::InvalidLength));
    }
}

#[test]
fn hash_hex_of_zeros() {
    let h = TxId::from_bytes([0u8; 32]);
    let s = h.to_hex();
    assert_eq!(s.len(), 64);
    assert!(s.chars().all(|c| c == '0'));
}

#[test]
fn hash_hex_is_lowercase_and_padded() {
    let mut bytes = [0u8; 32];
    bytes[0] = 0x0f;
    bytes[1] = 0xa0;
    bytes[2] = 0xff;
    bytes[31] = 0x1b;
    let s = TxId::from_bytes(bytes).to_hex();
    assert_eq!(
        s,
        "0fa0ff000000000000000000000000000000000000000000000000000000001b"
    );
}

#[test]
fn hash_new_is_blake2b_256() {
    assert_eq!(
        TxId::new(b"").to_hex(),
        "0e5751c026e543b2e8ab2eb06099daa1d1e5df47778f7787faab45cdf12fe3a8"
    );
    assert_eq!(
        TxId::new(b"abc").to_hex(),
        "bddd813c634239723171ef3fee98579b94964e3bb1cb3e427262c8c068d52319"
    );
}

#[test]
fn hash_new_is_deterministic() {
    assert_eq!(TxId::new(b"some bytes"), TxId::new(b"some bytes"));
    assert_ne!(TxId::new(b"some bytes"), TxId::new(b"other bytes"));
}

#[test]
fn hash_round_trip() {
    let h = TxId::new(b"round trip");
    let mut buf = Vec::new();
    h.encode(&mut buf);
    assert_eq!(buf.len(), 34);
    assert_eq!(&buf[..2], &[0x58, 0x20]);
    let mut decoder = Decoder::from_vec(buf);
    assert_eq!(TxId::decode(&mut decoder), Ok(h));
    assert_eq!(decoder.remaining(), 0);
}

#[test]
fn hash_tag_does_not_change_bytes() {
    let a = wallet_crypto::hash::Hash::<Tx>::new(b"x");
    let b = wallet_crypto::hash::Hash::<Vec<TxInWitness>>::new(b"x");
    assert_eq!(a.as_bytes(), b.as_bytes());
    assert_eq!(a.to_hex(), b.to_hex());
}

#[test]
fn hash_order_is_by_bytes() {
    let mut lo = [0u8; 32];
    let mut hi = [0u8; 32];
    lo[31] = 1;
    hi[0] = 1;
    let lo = wallet_crypto::hash::Hash::<u8>::from_bytes(lo);
    let hi = wallet_crypto::hash::Hash::<u8>::from_bytes(hi);
    assert!(lo < hi);
}
