use minigit::hex::{decode_hex, encode_hex, HexError};

#[test]
fn decode_a_hex_string() {
    let hex_string = b"c2ca34e7559452cf9daad8a72c0ba874378bbcd4";
    let hex_u8: Vec<u8> = vec![
        194, 202, 52, 231, 85, 148, 82, 207, 157, 170, 216, 167, 44, 11, 168, 116, 55, 139, 188,
        212,
    ];

    assert_eq!(decode_hex(hex_string), Ok(hex_u8))
}

#[test]
fn decode_uppercase_hex() {
    assert_eq!(decode_hex(b"C2CA"), Ok(vec![194, 202]));
}

#[test]
fn decode_odd_length_is_an_error() {
    assert_eq!(decode_hex(b"abc"), Err(HexError::OddLength));
    assert_eq!(decode_hex(b"a"), Err(HexError::OddLength));
}

#[test]
fn decode_invalid_digit_is_an_error() {
    assert_eq!(decode_hex(b"zz"), Err(HexError::InvalidDigit));
    assert_eq!(decode_hex(b"a4g1"), Err(HexError::InvalidDigit));
}

#[test]
fn decode_empty_is_empty() {
    assert_eq!(decode_hex(b""), Ok(vec![]));
}

#[test]
fn encode_is_lowercase_two_digits_per_byte() {
    assert_eq!(encode_hex(&[194, 202, 0, 15, 255]), b"c2ca000fff".to_vec());
}

#[test]
fn encode_then_decode_round_trips() {
    let bytes: Vec<u8> = (0u16..256).map(|b| b as u8).collect();
    let encoded = encode_hex(bytes.as_slice());
    assert_eq!(encoded.len(), 512);
    assert_eq!(decode_hex(encoded.as_slice()), Ok(bytes));
}
