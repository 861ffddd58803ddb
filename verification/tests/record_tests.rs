use bitcoin_codec::error::BitcoinError;
use bitcoin_codec::input::TransactionInput;
use bitcoin_codec::outpoint::OutPoint;
use bitcoin_codec::script::Script;

#[test]
fn outpoint_round_trip() {
    let point = OutPoint::new([0x11; 32], 7);
    let encoded = point.to_bytes();
    assert_eq!(encoded.len(), 36);
    assert_eq!(&encoded[0..32], &[0x11; 32]);
    assert_eq!(&encoded[32..36], &[0x07, 0x00, 0x00, 0x00]);
    let (decoded, consumed) = OutPoint::from_bytes(&encoded).unwrap();
    assert_eq!(decoded, point);
    assert_eq!(consumed, 36);
}

#[test]
fn outpoint_accepts_any_36_bytes_and_consumes_exactly_36() {
    let mut buffer = Vec::new();
    for i in 0..40u8 {
        buffer.push(i);
    }
    let (decoded, consumed) = OutPoint::from_bytes(&buffer).unwrap();
    assert_eq!(consumed, 36);
    assert_eq!(decoded.txid.0.to_vec(), buffer[0..32].to_vec());
    assert_eq!(decoded.vout, u32::from_le_bytes([32, 33, 34, 35]));
}

#[test]
fn outpoint_35_bytes_fail() {
    assert_eq!(
        OutPoint::from_bytes(&[0u8; 35]),
        Err(BitcoinError::InsufficientBytes)
    );
}

#[test]
fn script_round_trip() {
    let script = Script::new(vec![0x51, 0x52, 0x53]);
    let encoded = script.to_bytes();
    assert_eq!(encoded, vec![0x03, 0x51, 0x52, 0x53]);
    let (decoded, consumed) = Script::from_bytes(&encoded).unwrap();
    assert_eq!(decoded, script);
    assert_eq!(consumed, 4);
}

#[test]
fn script_long_payload_uses_compact_size_prefix() {
    let script = Script::new(vec![0xAA; 300]);
    let encoded = script.to_bytes();
    assert_eq!(encoded.len(), 3 + 300);
    assert_eq!(&encoded[0..3], &[0xFD, 0x2C, 0x01]);
    assert!(encoded[3..].iter().all(|&b| b == 0xAA));

    let mut buffer = encoded.clone();
    buffer.extend_from_slice(&[0xDE, 0xAD, 0xBE, 0xEF]);
    let (decoded, consumed) = Script::from_bytes(&buffer).unwrap();
    assert_eq!(consumed, 3 + 300);
    assert_eq!(decoded.as_bytes().len(), 300);
    assert_eq!(decoded, script);
}

#[test]
fn script_empty_payload() {
    let script = Script::new(Vec::new());
    let encoded = script.to_bytes();
    assert_eq!(encoded, vec![0x00]);
    let (decoded, consumed) = Script::from_bytes(&encoded).unwrap();
    assert_eq!(consumed, 1);
    assert!(decoded.as_bytes().is_empty());
}

#[test]
fn script_truncated_payload_fails() {
    assert_eq!(
        Script::from_bytes(&[0x05, 0x01, 0x02]),
        Err(BitcoinError::InsufficientBytes)
    );
    assert_eq!(
        Script::from_bytes(&[]),
        Err(BitcoinError::InsufficientBytes)
    );
}

#[test]
fn script_coarsens_prefix_invalid_format() {
    // A non-minimal CompactSize prefix is InvalidFormat at the CompactSize
    // layer; Script reports it as InsufficientBytes by design.
    assert_eq!(
        Script::from_bytes(&[0xFD, 0x03, 0x00, 0x01, 0x02, 0x03]),
        Err(BitcoinError::InsufficientBytes)
    );
}

#[test]
fn input_round_trip() {
    let input = TransactionInput::new(
        OutPoint::new([0xAB; 32], 1),
        Script::new(vec![0x01, 0x02]),
        0xFFFFFFFE,
    );
    let encoded = input.to_bytes();
    assert_eq!(encoded.len(), 36 + 3 + 4);
    let (decoded, consumed) = TransactionInput::from_bytes(&encoded).unwrap();
    assert_eq!(decoded, input);
    assert_eq!(consumed, encoded.len());
}

#[test]
fn input_ignores_trailing_bytes() {
    let input = TransactionInput::new(OutPoint::new([2; 32], 0), Script::new(Vec::new()), 0);
    let mut buffer = input.to_bytes();
    let encoded_len = buffer.len();
    buffer.extend_from_slice(&[0x99, 0x98]);
    let (decoded, consumed) = TransactionInput::from_bytes(&buffer).unwrap();
    assert_eq!(decoded, input);
    assert_eq!(consumed, encoded_len);
}

#[test]
fn input_shorter_than_41_bytes_fails() {
    assert_eq!(
        TransactionInput::from_bytes(&[0u8; 40]),
        Err(BitcoinError::InsufficientBytes)
    );
}

#[test]
fn input_missing_sequence_fails() {
    // 36 bytes of outpoint, a script declaring 10 payload bytes, but only the
    // payload and no room for the 4 sequence bytes.
    let mut buffer = vec![0u8; 36];
    buffer.push(10);
    buffer.extend_from_slice(&[0x07; 10]);
    assert_eq!(buffer.len(), 47);
    assert_eq!(
        TransactionInput::from_bytes(&buffer),
        Err(BitcoinError::InsufficientBytes)
    );
}
