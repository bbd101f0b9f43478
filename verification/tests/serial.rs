use engine_id::error::CodecError;
use engine_id::serial::{
    dotted_to_serial, format_serial, hex_engine_to_serial, parse_serial, serial_to_dotted,
    serial_to_hex_engine, SERIAL_DIGITS, SERIAL_LIMIT, VENDOR_PREFIX,
};

fn chars(text: &str) -> Vec<char> {
    text.chars().collect()
}

#[test]
fn the_constants() {
    assert_eq!(SERIAL_DIGITS, 24);
    assert_eq!(SERIAL_LIMIT, 1u128 << 96);
    assert_eq!(VENDOR_PREFIX, "1.3.6.1.4.1.29240.1.1.3.5.15.");
}

#[test]
fn format_serial_pads_to_24_digits() {
    assert_eq!(format_serial(0).unwrap(), "000000000000000000000000");
    assert_eq!(format_serial(1).unwrap(), "000000000000000000000001");
    assert_eq!(format_serial(0xabc).unwrap(), "000000000000000000000abc");
    assert_eq!(
        format_serial(30021346100634644478317297663).unwrap(),
        "610113512990c8080d13ffff"
    );
    assert_eq!(format_serial(SERIAL_LIMIT - 1).unwrap(), "ffffffffffffffffffffffff");
}

#[test]
fn format_serial_rejects_more_than_96_bits() {
    assert_eq!(format_serial(SERIAL_LIMIT), Err(CodecError::SerialOverflow));
    assert_eq!(format_serial(SERIAL_LIMIT + 1), Err(CodecError::SerialOverflow));
    assert_eq!(format_serial(u128::MAX), Err(CodecError::SerialOverflow));
}

#[test]
fn parse_serial_reads_24_digits() {
    assert_eq!(parse_serial(&chars("000000000000000000000000")), Ok(0));
    assert_eq!(parse_serial(&chars("000000000000000000000001")), Ok(1));
    assert_eq!(
        parse_serial(&chars("610113512990C8080D13FFFF")),
        Ok(30021346100634644478317297663)
    );
    assert_eq!(
        parse_serial(&chars("610113512990c8080d13ffff")),
        Ok(30021346100634644478317297663)
    );
    assert_eq!(parse_serial(&chars("ffffffffffffffffffffffff")), Ok(SERIAL_LIMIT - 1));
    assert_eq!(parse_serial(&chars("FFFFFFFFFFFFFFFFFFFFFFFF")), Ok(SERIAL_LIMIT - 1));
}

#[test]
fn parse_serial_rejects_other_lengths_and_characters() {
    assert_eq!(parse_serial(&chars("")), Err(CodecError::SerialHex));
    assert_eq!(parse_serial(&chars("1")), Err(CodecError::SerialHex));
    assert_eq!(parse_serial(&chars("610113512990C8080D13FFF")), Err(CodecError::SerialHex));
    assert_eq!(parse_serial(&chars("610113512990C8080D13FFFFF")), Err(CodecError::SerialHex));
    assert_eq!(parse_serial(&chars("610113512990C8080D13FFFG")), Err(CodecError::SerialHex));
    assert_eq!(parse_serial(&chars("+10113512990C8080D13FFFF")), Err(CodecError::SerialHex));
    assert_eq!(parse_serial(&chars("610113512990 8080D13FFFF")), Err(CodecError::SerialHex));
}

#[test]
fn serial_to_dotted_puts_the_prefix_in_front() {
    assert_eq!(
        serial_to_dotted("000000000000000000000000").unwrap(),
        "1.3.6.1.4.1.29240.1.1.3.5.15.0"
    );
    assert_eq!(
        serial_to_dotted("00000000000000000000000a").unwrap(),
        "1.3.6.1.4.1.29240.1.1.3.5.15.10"
    );
    assert_eq!(
        serial_to_dotted("ffffffffffffffffffffffff").unwrap(),
        "1.3.6.1.4.1.29240.1.1.3.5.15.79228162514264337593543950335"
    );
    assert_eq!(serial_to_dotted("12"), Err(CodecError::SerialHex));
    assert_eq!(serial_to_dotted("1.3.6.1"), Err(CodecError::SerialHex));
}

#[test]
fn dotted_to_serial_takes_the_last_arc() {
    assert_eq!(dotted_to_serial("1.3.6.1.255").unwrap(), "0000000000000000000000ff");
    assert_eq!(dotted_to_serial("1.3").unwrap(), "000000000000000000000003");
    assert_eq!(dotted_to_serial("9.9.0").unwrap(), "000000000000000000000000");
    assert_eq!(
        dotted_to_serial("1.3.79228162514264337593543950335").unwrap(),
        "ffffffffffffffffffffffff"
    );
}

#[test]
fn dotted_to_serial_looks_at_the_last_arc_only() {
    assert_eq!(dotted_to_serial("17").unwrap(), "000000000000000000000011");
    assert_eq!(dotted_to_serial("x.y.17").unwrap(), "000000000000000000000011");
    assert_eq!(dotted_to_serial("99.99.16").unwrap(), "000000000000000000000010");
}

#[test]
fn dotted_to_serial_rejects_a_bad_last_arc() {
    assert_eq!(dotted_to_serial(""), Err(CodecError::ParseArc));
    assert_eq!(dotted_to_serial("1.3."), Err(CodecError::ParseArc));
    assert_eq!(dotted_to_serial("1.3.x"), Err(CodecError::ParseArc));
    assert_eq!(dotted_to_serial("1.3.-4"), Err(CodecError::ParseArc));
}

#[test]
fn dotted_to_serial_rejects_more_than_96_bits() {
    assert_eq!(
        dotted_to_serial("1.3.79228162514264337593543950336"),
        Err(CodecError::SerialOverflow)
    );
    assert_eq!(
        dotted_to_serial("1.3.340282366920938463463374607431768211455"),
        Err(CodecError::SerialOverflow)
    );
    assert_eq!(
        dotted_to_serial("1.3.340282366920938463463374607431768211456"),
        Err(CodecError::Overflow)
    );
}

#[test]
fn hex_engine_to_serial_goes_through_the_identifier() {
    assert_eq!(hex_engine_to_serial("032b0601").unwrap(), "000000000000000000000001");
    assert_eq!(hex_engine_to_serial("032b8100").unwrap(), "000000000000000000000080");
    assert_eq!(hex_engine_to_serial("012b").unwrap(), "000000000000000000000003");
    assert_eq!(hex_engine_to_serial(""), Err(CodecError::HexParse));
    assert_eq!(hex_engine_to_serial("0"), Err(CodecError::HexParse));
    assert_eq!(hex_engine_to_serial("022b"), Err(CodecError::LengthMismatch));
    assert_eq!(hex_engine_to_serial("022b81"), Err(CodecError::Truncated));
}

#[test]
fn hex_engine_to_serial_rejects_a_last_arc_over_96_bits() {
    let hex = "0f2ba080808080808080808080808000";
    assert_eq!(
        engine_id::engine::convert_objid_hex_to_dotted_decimal(hex).unwrap(),
        "1.3.79228162514264337593543950336"
    );
    assert_eq!(hex_engine_to_serial(hex), Err(CodecError::SerialOverflow));
}

#[test]
fn serial_to_hex_engine_goes_through_the_identifier() {
    assert_eq!(
        serial_to_hex_engine("000000000000000000000000").unwrap(),
        "0e2b0601040181e438010103050f00"
    );
    assert_eq!(
        serial_to_hex_engine("000000000000000000000080").unwrap(),
        "0f2b0601040181e438010103050f8100"
    );
    assert_eq!(
        serial_to_hex_engine("FFFFFFFFFFFFFFFFFFFFFFFF").unwrap(),
        "1b2b0601040181e438010103050f9fffffffffffffffffffffffff7f"
    );
    assert_eq!(serial_to_hex_engine("zz"), Err(CodecError::SerialHex));
}
