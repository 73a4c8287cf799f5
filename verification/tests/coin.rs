use wallet_crypto::coin::{Coin, MAX_COIN};
use wallet_crypto::decode::Decoder;
use wallet_crypto::encode;
use wallet_crypto::error::Error;

#[test]
fn coin_bound() {
    assert_eq!(MAX_COIN, 45000000000000000);
    assert!(Coin::new(0).is_some());
    assert!(Coin::new(45000000000000000).is_some());
    assert!(Coin::new(45000000000000001).is_none());
    assert!(Coin::new(u64::MAX).is_none());
    assert_eq!(Coin::new(42).unwrap().value(), 42);
}

#[test]
fn coin_encode_exact() {
    let mut buf = Vec::new();
    Coin::new(42).unwrap().encode(&mut buf);
    assert_eq!(buf, vec![0x18, 0x2a]);
    let mut buf = Vec::new();
    Coin::new(45000000000000000).unwrap().encode(&mut buf);
    assert_eq!(buf, vec![0x1b, 0x00, 0x9f, 0xdf, 0x42, 0xf6, 0xe4, 0x80, 0x00]);
}

#[test]
fn coin_round_trip() {
    for v in [0u64, 1, 23, 24, 255, 256, 65535, 65536, 4294967295, 4294967296, MAX_COIN] {
        let c = Coin::new(v).unwrap();
        let mut buf = Vec::new();
        c.encode(&mut buf);
        let mut decoder = Decoder::from_vec(buf);
        assert_eq!(Coin::decode(&mut decoder), Ok(c));
        assert_eq!(decoder.remaining(), 0);
    }
}

#[test]
fn coin_decode_out_of_bounds() {
    let mut buf = Vec::new();
    encode::uint(45000000000000001, &mut buf);
    let mut decoder = Decoder::from_vec(buf);
    assert_eq!(Coin::decode(&mut decoder), Err(Error::OutOfBounds));
}

#[test]
fn coin_decode_wrong_type() {
    let mut buf = Vec::new();
    encode::bs(&[1, 2], &mut buf);
    let mut decoder = Decoder::from_vec(buf);
    assert_eq!(Coin::decode(&mut decoder), Err(Error::UnexpectedType));
    let mut decoder = Decoder::new();
    assert_eq!(Coin::decode(&mut decoder), Err(Error::UnexpectedEnd));
}
