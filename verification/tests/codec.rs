use wallet_crypto::crc32::crc32;
use wallet_crypto::decode::Decoder;
use wallet_crypto::encode;
use wallet_crypto::error::Error;
use wallet_crypto::txout::{decode_with_crc32, encode_with_crc32};

#[test]
fn crc32_known_values() {
    assert_eq!(crc32(b""), 0);
    assert_eq!(crc32(&[0]), 0xd202ef8d);
    assert_eq!(crc32(b"123456789"), 0xcbf43926);
}

#[test]
fn uint_shortest_form() {
    let cases: Vec<(u64, Vec<u8>)> = vec![
        (0, vec![0x00]),
        (23, vec![0x17]),
        (24, vec![0x18, 0x18]),
        (255, vec![0x18, 0xff]),
        (256, vec![0x19, 0x01, 0x00]),
        (65535, vec![0x19, 0xff, 0xff]),
        (65536, vec![0x1a, 0x00, 0x01, 0x00, 0x00]),
        (4294967295, vec![0x1a, 0xff, 0xff, 0xff, 0xff]),
        (4294967296, vec![0x1b, 0, 0, 0, 1, 0, 0, 0, 0]),
        (u64::MAX, vec![0x1b, 0xff, 0xff, 0xff, 0xff, 0xff, 0xff, 0xff, 0xff]),
    ];
    for (v, bytes) in cases {
        let mut buf = Vec::new();
        encode::uint(v, &mut buf);
        assert_eq!(buf, bytes);
        let mut decoder = Decoder::from_vec(bytes);
        assert_eq!(decoder.uint(), Ok(v));
        assert_eq!(decoder.remaining(), 0);
    }
}

#[test]
fn headers_carry_major_type() {
    let mut buf = Vec::new();
    encode::array_start(2, &mut buf);
    encode::map_start(1, &mut buf);
    encode::tag(24, &mut buf);
    encode::bs(&[9, 8, 7], &mut buf);
    assert_eq!(buf, vec![0x82, 0xa1, 0xd8, 0x18, 0x43, 9, 8, 7]);
    let mut decoder = Decoder::new();
    decoder.extend(&buf);
    assert_eq!(decoder.array_start(), Ok(2));
    assert_eq!(decoder.map_start(), Ok(1));
    assert_eq!(decoder.tag(), Ok(24));
    assert_eq!(decoder.bs(), Ok(vec![9, 8, 7]));
    assert_eq!(decoder.remaining(), 0);
    assert_eq!(decoder.uint(), Err(Error::UnexpectedEnd));
}

#[test]
fn decoder_reads_longer_forms() {
    let mut decoder = Decoder::from_vec(vec![0x19, 0x00, 0x05]);
    assert_eq!(decoder.head(), Ok((0, 5)));
}

#[test]
fn decoder_errors() {
    let mut decoder = Decoder::from_vec(vec![0x19, 0x00]);
    assert_eq!(decoder.uint(), Err(Error::UnexpectedEnd));
    let mut decoder = Decoder::from_vec(vec![0x9f]);
    assert_eq!(decoder.array_start(), Err(Error::UnexpectedType));
    let mut decoder = Decoder::from_vec(vec![0x43, 1, 2]);
    assert_eq!(decoder.bs(), Err(Error::UnexpectedEnd));
    let mut decoder = Decoder::from_vec(vec![0x01]);
    assert_eq!(decoder.array_start(), Err(Error::UnexpectedType));
}

#[test]
fn crc32_wrapping() {
    let mut buf = Vec::new();
    encode_with_crc32(b"123456789", &mut buf);
    let mut expected = vec![0x82, 0xd8, 0x18, 0x49];
    expected.extend_from_slice(b"123456789");
    expected.extend_from_slice(&[0x1a, 0xcb, 0xf4, 0x39, 0x26]);
    assert_eq!(buf, expected);
    let mut decoder = Decoder::from_vec(buf.clone());
    assert_eq!(decode_with_crc32(&mut decoder), Ok(b"123456789".to_vec()));
    let last = buf.len() - 1;
    buf[last] ^= 0xff;
    let mut decoder = Decoder::from_vec(buf);
    assert_eq!(decode_with_crc32(&mut decoder), Err(Error::ChecksumMismatch));
}
