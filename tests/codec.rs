use token_bridge::amount::Amount;
use token_bridge::codec::{decode, encode, pad_amount};
use token_bridge::error::BridgeError;

fn key(b: u8) -> [u8; 32] {
    [b; 32]
}

#[test]
fn encode_lays_out_fields() {
    let amount = Amount::from_u64(100);
    let payload = encode(&key(0xAA), &amount, &key(0xBB)).unwrap();
    assert_eq!(payload.len(), 96);
    assert_eq!(&payload[0..32], &[0xAA; 32][..]);
    let mut field = [0u8; 32];
    field[31] = 100;
    assert_eq!(&payload[32..64], &field[..]);
    assert_eq!(&payload[64..96], &[0xBB; 32][..]);
}

#[test]
fn pad_right_aligns_big_endian() {
    let amount = Amount::from_be_bytes(&[0x01, 0x02, 0x03]);
    let padded = pad_amount(&amount).unwrap();
    let mut expected = [0u8; 32];
    expected[29] = 0x01;
    expected[30] = 0x02;
    expected[31] = 0x03;
    assert_eq!(padded, expected);
}

#[test]
fn round_trip_recovers_fields() {
    for bytes in [vec![1u8], vec![0x12, 0x34, 0x56, 0x78, 0x9a], vec![0xff; 32]] {
        let amount = Amount::from_be_bytes(&bytes);
        let payload = encode(&key(7), &amount, &key(9)).unwrap();
        let decoded = decode(&payload).unwrap();
        assert_eq!(decoded.asset_key, key(7));
        assert_eq!(decoded.receiver, key(9));
        assert_eq!(decoded.amount.to_be_bytes(), bytes);
    }
}

#[test]
fn largest_amount_encodes() {
    let amount = Amount::from_be_bytes(&[0xff; 32]);
    let payload = encode(&key(1), &amount, &key(2)).unwrap();
    assert_eq!(&payload[32..64], &[0xff; 32][..]);
}

#[test]
fn amount_of_33_bytes_overflows() {
    let mut bytes = vec![0u8; 33];
    bytes[0] = 1;
    let amount = Amount::from_be_bytes(&bytes);
    assert_eq!(encode(&key(1), &amount, &key(2)), Err(BridgeError::AmountOverflow));
    assert_eq!(pad_amount(&amount), Err(BridgeError::AmountOverflow));
}

#[test]
fn leading_zeros_do_not_overflow() {
    let mut bytes = vec![0u8; 40];
    bytes[39] = 5;
    let amount = Amount::from_be_bytes(&bytes);
    assert_eq!(amount.to_be_bytes(), vec![5u8]);
    let padded = pad_amount(&amount).unwrap();
    assert_eq!(padded[31], 5);
}

#[test]
fn short_payloads_are_malformed() {
    let bytes = vec![3u8; 96];
    for len in 0..96 {
        assert!(matches!(decode(&bytes[..len]), Err(BridgeError::MalformedPayload)));
    }
    assert!(decode(&bytes).is_ok());
}

#[test]
fn longer_payload_ignores_tail() {
    let mut bytes = vec![0u8; 100];
    bytes[63] = 42;
    bytes[64] = 9;
    let decoded = decode(&bytes).unwrap();
    assert_eq!(decoded.amount.to_be_bytes(), vec![42u8]);
    assert_eq!(decoded.receiver[0], 9);
}

#[test]
fn amount_from_u64_is_big_endian() {
    assert_eq!(Amount::from_u64(0).to_be_bytes(), Vec::<u8>::new());
    assert!(Amount::from_u64(0).is_zero());
    assert_eq!(Amount::from_u64(0x0102).to_be_bytes(), vec![1u8, 2]);
    assert_eq!(Amount::from_u64(u64::MAX).to_be_bytes(), vec![0xffu8; 8]);
    assert!(!Amount::from_u64(1).is_zero());
    assert_eq!(Amount::from_u64(300).duplicate().to_be_bytes(), vec![1u8, 44]);
}
