use plc_decoder::hexcode::{decode_hex, HexError};

#[test]
fn decodes_pairs_of_digits() {
    assert_eq!(decode_hex("48656C6C6F"), Ok(b"Hello".to_vec()));
    assert_eq!(decode_hex("00ff7F80"), Ok(vec![0x00, 0xff, 0x7f, 0x80]));
    assert_eq!(decode_hex("aBcD"), Ok(vec![0xab, 0xcd]));
}

#[test]
fn empty_text_is_no_bytes() {
    assert_eq!(decode_hex(""), Ok(Vec::new()));
}

#[test]
fn odd_length_is_malformed() {
    assert_eq!(decode_hex("ABC"), Err(HexError::Malformed));
    assert_eq!(decode_hex("0"), Err(HexError::Malformed));
}

#[test]
fn other_characters_are_malformed() {
    assert_eq!(decode_hex("4G"), Err(HexError::Malformed));
    assert_eq!(decode_hex("12 4"), Err(HexError::Malformed));
    assert_eq!(decode_hex("Я"), Err(HexError::Malformed));
    assert_eq!(decode_hex("\u{ff10}\u{ff11}"), Err(HexError::Malformed));
}

#[test]
fn hex_round_trips_every_byte() {
    let bytes: Vec<u8> = (0..=255).collect();
    assert_eq!(decode_hex(&hex::encode(&bytes)), Ok(bytes.clone()));
    assert_eq!(decode_hex(&hex::encode_upper(&bytes)), Ok(bytes));
}
