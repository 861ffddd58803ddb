use bitcoin_codec::error::BitcoinError;
use bitcoin_codec::input::TransactionInput;
use bitcoin_codec::outpoint::OutPoint;
use bitcoin_codec::script::Script;
use bitcoin_codec::transaction::BitcoinTransaction;

#[test]
fn empty_transaction_is_nine_bytes() {
    let tx = BitcoinTransaction::new(1, Vec::new(), 0);
    let encoded = tx.to_bytes();
    assert_eq!(encoded, vec![0x01, 0x00, 0x00, 0x00, 0x00, 0x00, 0x00, 0x00, 0x00]);
    let (decoded, consumed) = BitcoinTransaction::from_bytes(&encoded).unwrap();
    assert_eq!(decoded, tx);
    assert_eq!(consumed, 9);
}

#[test]
fn multi_input_transaction_round_trip() {
    let inputs = vec![
        TransactionInput::new(OutPoint::new([0x01; 32], 0), Script::new(Vec::new()), 0),
        TransactionInput::new(OutPoint::new([0x02; 32], 1), Script::new(vec![0xAC]), 1),
        TransactionInput::new(
            OutPoint::new([0x03; 32], 2),
            Script::new(vec![0x55; 300]),
            0xFFFFFFFF,
        ),
    ];
    let tx = BitcoinTransaction::new(2, inputs, 500_000);
    let encoded = tx.to_bytes();
    let (decoded, consumed) = BitcoinTransaction::from_bytes(&encoded).unwrap();
    assert_eq!(decoded, tx);
    assert_eq!(consumed, encoded.len());
    assert_eq!(decoded.inputs.len(), 3);
    assert_eq!(decoded.inputs[0].script_sig.as_bytes().len(), 0);
    assert_eq!(decoded.inputs[1].script_sig.as_bytes().len(), 1);
    assert_eq!(decoded.inputs[2].script_sig.as_bytes().len(), 300);
}

#[test]
fn transaction_ignores_trailing_bytes() {
    let tx = BitcoinTransaction::new(1, Vec::new(), 77);
    let mut buffer = tx.to_bytes();
    buffer.extend_from_slice(&[0xAA, 0xBB]);
    let (decoded, consumed) = BitcoinTransaction::from_bytes(&buffer).unwrap();
    assert_eq!(decoded, tx);
    assert_eq!(consumed, 9);
}

#[test]
fn transaction_truncated_version_fails() {
    assert_eq!(
        BitcoinTransaction::from_bytes(&[0x01, 0x00, 0x00]),
        Err(BitcoinError::InsufficientBytes)
    );
}

#[test]
fn transaction_missing_count_fails() {
    assert_eq!(
        BitcoinTransaction::from_bytes(&[0x01, 0x00, 0x00, 0x00]),
        Err(BitcoinError::InsufficientBytes)
    );
}

#[test]
fn transaction_non_minimal_count_fails_invalid_format() {
    // Version, then an overlong CompactSize for the input count.
    let buffer = [0x01, 0x00, 0x00, 0x00, 0xFD, 0x00, 0x00, 0x00, 0x00];
    assert_eq!(
        BitcoinTransaction::from_bytes(&buffer),
        Err(BitcoinError::InvalidFormat)
    );
}

#[test]
fn transaction_missing_declared_input_fails() {
    // Declares one input but holds none.
    let buffer = [0x01, 0x00, 0x00, 0x00, 0x01, 0x00, 0x00, 0x00, 0x00];
    assert_eq!(
        BitcoinTransaction::from_bytes(&buffer),
        Err(BitcoinError::InsufficientBytes)
    );
}

#[test]
fn transaction_missing_lock_time_fails() {
    let tx = BitcoinTransaction::new(
        1,
        vec![TransactionInput::new(
            OutPoint::new([9; 32], 4),
            Script::new(vec![0x51]),
            3,
        )],
        0,
    );
    let encoded = tx.to_bytes();
    let truncated = &encoded[..encoded.len() - 1];
    assert_eq!(
        BitcoinTransaction::from_bytes(truncated),
        Err(BitcoinError::InsufficientBytes)
    );
}
