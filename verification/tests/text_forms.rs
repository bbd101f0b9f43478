use engine_id::decimal::{append_decimal, format_decimal, parse_decimal};
use engine_id::dotted::{append_dotted, format_dotted, parse_dotted};
use engine_id::error::CodecError;
use engine_id::hex::{append_hex, append_hex_padded, decode_hex, encode_hex, hex_value};
use engine_id::oid::Oid;
use engine_id::text::to_chars;

fn chars(text: &str) -> Vec<char> {
    text.chars().collect()
}

#[test]
fn to_chars_gives_every_character() {
    assert_eq!(to_chars(""), Vec::<char>::new());
    assert_eq!(to_chars("1.3"), vec!['1', '.', '3']);
    assert_eq!(to_chars("a\u{e9}\u{1f600}z"), vec!['a', '\u{e9}', '\u{1f600}', 'z']);
}

#[test]
fn hex_digits_are_lower_case() {
    let all: Vec<u8> = (0u8..=255).collect();
    let text = encode_hex(&all);
    assert_eq!(&text[..32], "000102030405060708090a0b0c0d0e0f");
    assert_eq!(&text[text.len() - 32..], "f0f1f2f3f4f5f6f7f8f9fafbfcfdfeff");
    assert_eq!(decode_hex(&chars(&text)), Some(all));
}

#[test]
fn hex_values_of_both_cases() {
    let lower = "0123456789abcdef";
    let upper = "0123456789ABCDEF";
    for (i, c) in lower.chars().enumerate() {
        assert_eq!(hex_value(c), Some(i as u8));
    }
    for (i, c) in upper.chars().enumerate() {
        assert_eq!(hex_value(c), Some(i as u8));
    }
    for c in ['g', 'G', '/', ':', '@', '`', ' ', '.', '+', '-', 'x', '\u{ff11}'] {
        assert_eq!(hex_value(c), None);
    }
}

#[test]
fn encode_hex_writes_two_digits_per_byte() {
    assert_eq!(encode_hex(&[]), "");
    assert_eq!(encode_hex(&[0x00]), "00");
    assert_eq!(encode_hex(&[0x0f, 0xf0, 0xab]), "0ff0ab");
    assert_eq!(encode_hex(&[0x01, 0x2b]), "012b");
    let mut out = String::from("x");
    append_hex(&mut out, &[0xde, 0xad]);
    assert_eq!(out, "xdead");
}

#[test]
fn decode_hex_reads_either_case() {
    assert_eq!(decode_hex(&chars("")), Some(vec![]));
    assert_eq!(decode_hex(&chars("00")), Some(vec![0x00]));
    assert_eq!(decode_hex(&chars("0ff0ab")), Some(vec![0x0f, 0xf0, 0xab]));
    assert_eq!(decode_hex(&chars("0FF0AB")), Some(vec![0x0f, 0xf0, 0xab]));
    assert_eq!(decode_hex(&chars("aBcD")), Some(vec![0xab, 0xcd]));
}

#[test]
fn decode_hex_rejects_odd_lengths_and_other_characters() {
    assert_eq!(decode_hex(&chars("0")), None);
    assert_eq!(decode_hex(&chars("012")), None);
    assert_eq!(decode_hex(&chars("0g")), None);
    assert_eq!(decode_hex(&chars("g0")), None);
    assert_eq!(decode_hex(&chars("01 2b")), None);
    assert_eq!(decode_hex(&chars("+1")), None);
    assert_eq!(decode_hex(&chars("0x12")), None);
}

#[test]
fn padded_hex_has_the_width_asked_for() {
    let mut out = String::new();
    append_hex_padded(&mut out, 0x2b, 4);
    assert_eq!(out, "002b");
    append_hex_padded(&mut out, 0x12345, 2);
    assert_eq!(out, "002b45");
    append_hex_padded(&mut out, 7, 0);
    assert_eq!(out, "002b45");
    let mut wide = String::new();
    append_hex_padded(&mut wide, u128::MAX, 32);
    assert_eq!(wide, "ffffffffffffffffffffffffffffffff");
}

#[test]
fn decimal_digits() {
    assert_eq!(format_decimal(1234567890), "1234567890");
    assert_eq!(parse_decimal(&chars("9876543210")), Ok(9876543210));
}

#[test]
fn format_decimal_has_no_leading_zeros() {
    assert_eq!(format_decimal(0), "0");
    assert_eq!(format_decimal(7), "7");
    assert_eq!(format_decimal(10), "10");
    assert_eq!(format_decimal(29240), "29240");
    assert_eq!(format_decimal(30021346100634644478317297663), "30021346100634644478317297663");
    assert_eq!(format_decimal(u128::MAX), "340282366920938463463374607431768211455");
    let mut out = String::from("1.");
    append_decimal(&mut out, 305);
    assert_eq!(out, "1.305");
}

#[test]
fn parse_decimal_reads_digits() {
    assert_eq!(parse_decimal(&chars("0")), Ok(0));
    assert_eq!(parse_decimal(&chars("7")), Ok(7));
    assert_eq!(parse_decimal(&chars("007")), Ok(7));
    assert_eq!(parse_decimal(&chars("29240")), Ok(29240));
    assert_eq!(
        parse_decimal(&chars("340282366920938463463374607431768211455")),
        Ok(u128::MAX)
    );
    assert_eq!(
        parse_decimal(&chars("000340282366920938463463374607431768211455")),
        Ok(u128::MAX)
    );
}

#[test]
fn parse_decimal_rejects_what_is_no_number() {
    assert_eq!(parse_decimal(&chars("")), Err(CodecError::ParseArc));
    assert_eq!(parse_decimal(&chars("x")), Err(CodecError::ParseArc));
    assert_eq!(parse_decimal(&chars("1x")), Err(CodecError::ParseArc));
    assert_eq!(parse_decimal(&chars("+1")), Err(CodecError::ParseArc));
    assert_eq!(parse_decimal(&chars("-1")), Err(CodecError::ParseArc));
    assert_eq!(parse_decimal(&chars(" 1")), Err(CodecError::ParseArc));
    assert_eq!(parse_decimal(&chars("1_000")), Err(CodecError::ParseArc));
    assert_eq!(parse_decimal(&chars("\u{ff11}")), Err(CodecError::ParseArc));
}

#[test]
fn parse_decimal_rejects_what_does_not_fit() {
    assert_eq!(
        parse_decimal(&chars("340282366920938463463374607431768211456")),
        Err(CodecError::Overflow)
    );
    assert_eq!(
        parse_decimal(&chars("3402823669209384634633746074317682114550")),
        Err(CodecError::Overflow)
    );
    assert_eq!(
        parse_decimal(&chars("99999999999999999999999999999999999999999999999999999999")),
        Err(CodecError::Overflow)
    );
}

#[test]
fn a_bad_digit_counts_before_the_size() {
    assert_eq!(
        parse_decimal(&chars("99999999999999999999999999999999999999999999999999999999x")),
        Err(CodecError::ParseArc)
    );
}

#[test]
fn format_dotted_joins_with_dots() {
    assert_eq!(format_dotted(&Oid::new(vec![1, 3]).unwrap()), "1.3");
    assert_eq!(format_dotted(&Oid::new(vec![0, 0, 0]).unwrap()), "0.0.0");
    assert_eq!(
        format_dotted(&Oid::new(vec![1, 3, 6, 1, 4, 1, 29240]).unwrap()),
        "1.3.6.1.4.1.29240"
    );
    let mut out = String::from("<");
    append_dotted(&mut out, &[]);
    assert_eq!(out, "<");
    append_dotted(&mut out, &[12]);
    assert_eq!(out, "<12");
    append_dotted(&mut out, &[3, 4]);
    assert_eq!(out, "<123.4");
}

#[test]
fn parse_dotted_reads_each_arc() {
    assert_eq!(parse_dotted(&chars("1.3")).unwrap().arcs(), &vec![1, 3]);
    assert_eq!(parse_dotted(&chars("1.3.6.1")).unwrap().arcs(), &vec![1, 3, 6, 1]);
    assert_eq!(parse_dotted(&chars("01.003.0")).unwrap().arcs(), &vec![1, 3, 0]);
    assert_eq!(
        parse_dotted(&chars("9.340282366920938463463374607431768211455")).unwrap().arcs(),
        &vec![9, u128::MAX]
    );
}

#[test]
fn parse_dotted_needs_two_arcs() {
    assert_eq!(parse_dotted(&chars("")), Err(CodecError::ParseArc));
    assert_eq!(parse_dotted(&chars("1")), Err(CodecError::ParseArc));
    assert_eq!(parse_dotted(&chars("12345")), Err(CodecError::ParseArc));
    assert_eq!(
        parse_dotted(&chars("340282366920938463463374607431768211456")),
        Err(CodecError::ParseArc)
    );
}

#[test]
fn parse_dotted_rejects_empty_and_malformed_arcs() {
    assert_eq!(parse_dotted(&chars(".")), Err(CodecError::ParseArc));
    assert_eq!(parse_dotted(&chars("1.")), Err(CodecError::ParseArc));
    assert_eq!(parse_dotted(&chars(".1")), Err(CodecError::ParseArc));
    assert_eq!(parse_dotted(&chars("1..3")), Err(CodecError::ParseArc));
    assert_eq!(parse_dotted(&chars("1.3.")), Err(CodecError::ParseArc));
    assert_eq!(parse_dotted(&chars("1.a")), Err(CodecError::ParseArc));
    assert_eq!(parse_dotted(&chars("1.+3")), Err(CodecError::ParseArc));
    assert_eq!(parse_dotted(&chars("1. 3")), Err(CodecError::ParseArc));
    assert_eq!(parse_dotted(&chars("1.3\n")), Err(CodecError::ParseArc));
}

#[test]
fn parse_dotted_rejects_arcs_wider_than_128_bits() {
    assert_eq!(
        parse_dotted(&chars("1.3.340282366920938463463374607431768211456")),
        Err(CodecError::Overflow)
    );
    assert_eq!(
        parse_dotted(&chars("340282366920938463463374607431768211456.3")),
        Err(CodecError::Overflow)
    );
    assert_eq!(
        parse_dotted(&chars("1.340282366920938463463374607431768211456.3.4")),
        Err(CodecError::Overflow)
    );
}

#[test]
fn a_malformed_arc_counts_before_one_that_is_too_wide() {
    assert_eq!(
        parse_dotted(&chars("1.340282366920938463463374607431768211456.x")),
        Err(CodecError::ParseArc)
    );
    assert_eq!(
        parse_dotted(&chars("x.340282366920938463463374607431768211456")),
        Err(CodecError::ParseArc)
    );
}
