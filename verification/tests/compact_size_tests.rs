use bitcoin_codec::compact_size::CompactSize;
use bitcoin_codec::error::BitcoinError;

fn round_trip(value: u64) {
    let encoded = CompactSize::new(value).to_bytes();
    let (decoded, consumed) = CompactSize::from_bytes(&encoded).unwrap();
    assert_eq!(decoded.value, value);
    assert_eq!(consumed, encoded.len());
}

#[test]
fn compact_size_round_trip_all_widths() {
    for value in [
        0u64,
        1,
        0xFC,
        0xFD,
        0xFFFF,
        0x10000,
        0xFFFFFFFF,
        0x100000000,
        u64::MAX,
    ] {
        round_trip(value);
    }
}

#[test]
fn compact_size_boundary_encodings() {
    assert_eq!(CompactSize::new(0xFC).to_bytes(), vec![0xFC]);
    assert_eq!(CompactSize::new(0xFD).to_bytes(), vec![0xFD, 0xFD, 0x00]);
    assert_eq!(
        CompactSize::new(0x10000).to_bytes(),
        vec![0xFE, 0x00, 0x00, 0x01, 0x00]
    );
    assert_eq!(
        CompactSize::new(0x100000000).to_bytes(),
        vec![0xFF, 0, 0, 0, 0, 1, 0, 0, 0]
    );
}

#[test]
fn compact_size_rejects_non_minimal_two_byte_form() {
    assert_eq!(
        CompactSize::from_bytes(&[0xFD, 0xFC, 0x00]),
        Err(BitcoinError::InvalidFormat)
    );
    let (decoded, consumed) = CompactSize::from_bytes(&[0xFD, 0xFD, 0x00]).unwrap();
    assert_eq!(decoded.value, 253);
    assert_eq!(consumed, 3);
}

#[test]
fn compact_size_rejects_non_minimal_wide_forms() {
    assert_eq!(
        CompactSize::from_bytes(&[0xFE, 0xFF, 0xFF, 0x00, 0x00]),
        Err(BitcoinError::InvalidFormat)
    );
    assert_eq!(
        CompactSize::from_bytes(&[0xFF, 0xFF, 0xFF, 0xFF, 0xFF, 0, 0, 0, 0]),
        Err(BitcoinError::InvalidFormat)
    );
}

#[test]
fn compact_size_truncated_inputs_fail() {
    assert_eq!(
        CompactSize::from_bytes(&[]),
        Err(BitcoinError::InsufficientBytes)
    );
    assert_eq!(
        CompactSize::from_bytes(&[0xFE, 0x01, 0x02]),
        Err(BitcoinError::InsufficientBytes)
    );
    assert_eq!(
        CompactSize::from_bytes(&[0xFD, 0x01]),
        Err(BitcoinError::InsufficientBytes)
    );
    assert_eq!(
        CompactSize::from_bytes(&[0xFF, 1, 2, 3, 4, 5, 6, 7]),
        Err(BitcoinError::InsufficientBytes)
    );
}

#[test]
fn compact_size_ignores_trailing_bytes() {
    let (decoded, consumed) = CompactSize::from_bytes(&[0x2A, 0xDE, 0xAD]).unwrap();
    assert_eq!(decoded.value, 42);
    assert_eq!(consumed, 1);
}
