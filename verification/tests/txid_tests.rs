use bitcoin_codec::error::BitcoinError;
use bitcoin_codec::txid::Txid;

#[test]
fn txid_to_hex_is_lowercase_pairs() {
    let mut raw = [0u8; 32];
    raw[0] = 0xDE;
    raw[1] = 0xAD;
    raw[31] = 0x0F;
    let hex_string = Txid(raw).to_hex();
    assert_eq!(hex_string.len(), 64);
    assert!(hex_string.starts_with("dead"));
    assert!(hex_string.ends_with("0f"));
    assert_eq!(&hex_string[4..62], "0".repeat(58).as_str());
}

#[test]
fn txid_hex_round_trip() {
    let mut raw = [0u8; 32];
    for (i, byte) in raw.iter_mut().enumerate() {
        *byte = (i as u8).wrapping_mul(7);
    }
    let original = Txid(raw);
    let parsed = Txid::from_hex(&original.to_hex()).unwrap();
    assert_eq!(parsed, original);
}

#[test]
fn txid_from_hex_accepts_uppercase() {
    let parsed = Txid::from_hex(&"AB".repeat(32)).unwrap();
    assert_eq!(parsed.0, [0xAB; 32]);
}

#[test]
fn txid_from_hex_rejects_bad_inputs() {
    // Not hexadecimal.
    assert_eq!(
        Txid::from_hex(&"zz".repeat(32)),
        Err(BitcoinError::InvalidFormat)
    );
    // Odd length.
    assert_eq!(Txid::from_hex(&"a".repeat(63)), Err(BitcoinError::InvalidFormat));
    // Valid hex of the wrong byte length.
    assert_eq!(Txid::from_hex("abcd"), Err(BitcoinError::InvalidFormat));
    assert_eq!(
        Txid::from_hex(&"ab".repeat(33)),
        Err(BitcoinError::InvalidFormat)
    );
    assert_eq!(Txid::from_hex(""), Err(BitcoinError::InvalidFormat));
}
