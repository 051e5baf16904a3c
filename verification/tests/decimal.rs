use zpl_gen_for_library::decimal::{
    decimal_bytes, flipped_hex_bytes, padded_bytes, parse_u32, push_bytes, push_decimal,
};

#[test]
fn decimal_digits_of_numbers() {
    assert_eq!(decimal_bytes(0), b"0".to_vec());
    assert_eq!(decimal_bytes(7), b"7".to_vec());
    assert_eq!(decimal_bytes(10), b"10".to_vec());
    assert_eq!(decimal_bytes(5000000), b"5000000".to_vec());
    assert_eq!(decimal_bytes(u128::from(u32::MAX)), b"4294967295".to_vec());
    assert_eq!(
        decimal_bytes(u128::MAX),
        b"340282366920938463463374607431768211455".to_vec()
    );
}

#[test]
fn push_decimal_appends() {
    let mut out = b"n=".to_vec();
    push_decimal(&mut out, 120);
    assert_eq!(out, b"n=120".to_vec());
}

#[test]
fn padding_fills_up_to_the_width() {
    assert_eq!(padded_bytes(5, 8), b"00000005".to_vec());
    assert_eq!(padded_bytes(0, 8), b"00000000".to_vec());
    assert_eq!(padded_bytes(5000000, 8), b"05000000".to_vec());
    assert_eq!(padded_bytes(12345678, 8), b"12345678".to_vec());
}

#[test]
fn padding_keeps_longer_numbers_whole() {
    assert_eq!(padded_bytes(123456789, 8), b"123456789".to_vec());
    assert_eq!(padded_bytes(4294967295, 8), b"4294967295".to_vec());
    assert_eq!(padded_bytes(42, 0), b"42".to_vec());
}

#[test]
fn hex_puts_the_low_byte_first() {
    assert_eq!(flipped_hex_bytes(0x1234_5678), b"78563412".to_vec());
    assert_eq!(flipped_hex_bytes(5000000), b"404B4C00".to_vec());
    assert_eq!(flipped_hex_bytes(0), b"00000000".to_vec());
    assert_eq!(flipped_hex_bytes(u32::MAX), b"FFFFFFFF".to_vec());
    assert_eq!(flipped_hex_bytes(0x0000_00ab), b"AB000000".to_vec());
    assert_eq!(flipped_hex_bytes(0x9f00_0000), b"0000009F".to_vec());
}

#[test]
fn push_bytes_appends_characters() {
    let mut text = String::from("x");
    push_bytes(&mut text, b"123");
    assert_eq!(text, "x123");
    push_bytes(&mut text, b"");
    assert_eq!(text, "x123");
}

#[test]
fn parse_reads_plain_numbers() {
    assert_eq!(parse_u32(b"0"), Some(0));
    assert_eq!(parse_u32(b"5000001"), Some(5000001));
    assert_eq!(parse_u32(b"4294967295"), Some(u32::MAX));
}

#[test]
fn parse_takes_leading_zeros_and_one_plus() {
    assert_eq!(parse_u32(b"007"), Some(7));
    assert_eq!(parse_u32(b"00000000000000000005"), Some(5));
    assert_eq!(parse_u32(b"+5"), Some(5));
    assert_eq!(parse_u32(b"+0004294967295"), Some(u32::MAX));
}

#[test]
fn parse_refuses_what_is_no_number() {
    assert_eq!(parse_u32(b""), None);
    assert_eq!(parse_u32(b"+"), None);
    assert_eq!(parse_u32(b"++5"), None);
    assert_eq!(parse_u32(b"-1"), None);
    assert_eq!(parse_u32(b"abc"), None);
    assert_eq!(parse_u32(b"12a"), None);
    assert_eq!(parse_u32(b" 5"), None);
    assert_eq!(parse_u32(b"5 "), None);
    assert_eq!(parse_u32(b"5\r"), None);
    assert_eq!(parse_u32(b"1_000"), None);
}

#[test]
fn parse_refuses_what_does_not_fit() {
    assert_eq!(parse_u32(b"4294967296"), None);
    assert_eq!(parse_u32(b"99999999999"), None);
    assert_eq!(parse_u32(b"99999999999999999999999999999999999999999"), None);
    assert_eq!(parse_u32(b"4294967296x"), None);
}

#[test]
fn parse_agrees_with_std() {
    let samples = [
        "", "0", "1", "+1", "-1", "+", "00", "010", "4294967295", "4294967296", "42949672950",
        "12 ", "1e3", "٣", "１２", "0x10", "+-1", "18446744073709551616",
    ];
    for text in samples {
        assert_eq!(parse_u32(text.as_bytes()), text.parse::<u32>().ok(), "{text:?}");
    }
}

#[test]
fn padded_field_reads_back_as_the_number() {
    for serial in [0u32, 1, 9, 10, 99999999, 100000000, 5000000, u32::MAX] {
        let field = padded_bytes(u128::from(serial), 8);
        assert!(field.len() >= 8);
        assert_eq!(parse_u32(&field), Some(serial));
    }
}
