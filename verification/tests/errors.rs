use engine_id::engine::{convert_objid_dotted_decimal_to_hex, convert_objid_hex_to_dotted_decimal};
use engine_id::error::CodecError;

#[test]
fn error_names() {
    assert_eq!(CodecError::ParseArc.name(), "PARSE_ARC");
    assert_eq!(CodecError::Overflow.name(), "OVERFLOW");
    assert_eq!(CodecError::FirstArcRange.name(), "FIRST_ARC_RANGE");
    assert_eq!(CodecError::PayloadTooLong.name(), "PAYLOAD_TOO_LONG");
    assert_eq!(CodecError::HexParse.name(), "HEX_PARSE");
    assert_eq!(CodecError::LengthMismatch.name(), "LENGTH_MISMATCH");
    assert_eq!(CodecError::Truncated.name(), "TRUNCATED");
    assert_eq!(CodecError::SerialHex.name(), "SERIAL_HEX");
    assert_eq!(CodecError::SerialOverflow.name(), "SERIAL_OVERFLOW");
    assert_eq!(CodecError::InputFormat.name(), "INPUT_FORMAT");
}

#[test]
fn dotted_to_hex_parse_arc() {
    assert_eq!(convert_objid_dotted_decimal_to_hex(""), Err(CodecError::ParseArc));
    assert_eq!(convert_objid_dotted_decimal_to_hex("1"), Err(CodecError::ParseArc));
    assert_eq!(convert_objid_dotted_decimal_to_hex("1."), Err(CodecError::ParseArc));
    assert_eq!(convert_objid_dotted_decimal_to_hex("1.3.x.4"), Err(CodecError::ParseArc));
    assert_eq!(convert_objid_dotted_decimal_to_hex("1,3"), Err(CodecError::ParseArc));
    assert_eq!(convert_objid_dotted_decimal_to_hex("1.3.\u{661}"), Err(CodecError::ParseArc));
}

#[test]
fn dotted_to_hex_overflow() {
    assert_eq!(
        convert_objid_dotted_decimal_to_hex("1.3.340282366920938463463374607431768211456"),
        Err(CodecError::Overflow)
    );
    assert_eq!(
        convert_objid_dotted_decimal_to_hex("340282366920938463463374607431768211456.0"),
        Err(CodecError::Overflow)
    );
}

#[test]
fn dotted_to_hex_first_arc_range() {
    assert_eq!(convert_objid_dotted_decimal_to_hex("6.16"), Err(CodecError::FirstArcRange));
    assert_eq!(convert_objid_dotted_decimal_to_hex("0.256"), Err(CodecError::FirstArcRange));
    assert_eq!(convert_objid_dotted_decimal_to_hex("7.0.1"), Err(CodecError::FirstArcRange));
    assert_eq!(
        convert_objid_dotted_decimal_to_hex("340282366920938463463374607431768211455.1"),
        Err(CodecError::FirstArcRange)
    );
    assert_eq!(convert_objid_dotted_decimal_to_hex("6.15").unwrap(), "01ff");
    assert_eq!(convert_objid_dotted_decimal_to_hex("0.255").unwrap(), "01ff");
}

#[test]
fn dotted_to_hex_payload_too_long() {
    let mut dotted = String::from("1.3");
    for _ in 0..254 {
        dotted.push_str(".1");
    }
    let hex = convert_objid_dotted_decimal_to_hex(&dotted).unwrap();
    assert_eq!(hex.len(), 512);
    assert!(hex.starts_with("ff2b01"));
    assert_eq!(convert_objid_hex_to_dotted_decimal(&hex).unwrap(), dotted);
    dotted.push_str(".1");
    assert_eq!(convert_objid_dotted_decimal_to_hex(&dotted), Err(CodecError::PayloadTooLong));
}

#[test]
fn hex_to_dotted_hex_parse() {
    assert_eq!(convert_objid_hex_to_dotted_decimal(""), Err(CodecError::HexParse));
    assert_eq!(convert_objid_hex_to_dotted_decimal("0"), Err(CodecError::HexParse));
    assert_eq!(convert_objid_hex_to_dotted_decimal("012"), Err(CodecError::HexParse));
    assert_eq!(convert_objid_hex_to_dotted_decimal("01zz"), Err(CodecError::HexParse));
    assert_eq!(convert_objid_hex_to_dotted_decimal("02 81 00"), Err(CodecError::HexParse));
    assert_eq!(convert_objid_hex_to_dotted_decimal("0x012b"), Err(CodecError::HexParse));
    assert_eq!(convert_objid_hex_to_dotted_decimal("01\u{e9}b"), Err(CodecError::HexParse));
}

#[test]
fn hex_to_dotted_length_mismatch() {
    assert_eq!(convert_objid_hex_to_dotted_decimal("01"), Err(CodecError::LengthMismatch));
    assert_eq!(convert_objid_hex_to_dotted_decimal("022b"), Err(CodecError::LengthMismatch));
    assert_eq!(convert_objid_hex_to_dotted_decimal("002b"), Err(CodecError::LengthMismatch));
    assert_eq!(convert_objid_hex_to_dotted_decimal("012b06"), Err(CodecError::LengthMismatch));
    assert_eq!(
        convert_objid_hex_to_dotted_decimal(
            "1C2B0601040181E438010103050F8C9088CDA2A9C8B28180E8CFFF7F"
        ),
        Err(CodecError::LengthMismatch)
    );
}

#[test]
fn hex_to_dotted_truncated() {
    assert_eq!(convert_objid_hex_to_dotted_decimal("00"), Err(CodecError::Truncated));
    assert_eq!(convert_objid_hex_to_dotted_decimal("022b81"), Err(CodecError::Truncated));
    assert_eq!(convert_objid_hex_to_dotted_decimal("032b0580"), Err(CodecError::Truncated));
    assert_eq!(
        convert_objid_hex_to_dotted_decimal(
            "1B2B0601040181E438010103050F8C9088CDA2A9C8B28180E8CFFFFF"
        ),
        Err(CodecError::Truncated)
    );
}

#[test]
fn hex_to_dotted_overflow() {
    assert_eq!(
        convert_objid_hex_to_dotted_decimal("142b84808080808080808080808080808080808000"),
        Err(CodecError::Overflow)
    );
    assert_eq!(
        convert_objid_hex_to_dotted_decimal("142b83ffffffffffffffffffffffffffffffffff7f").unwrap(),
        "1.3.340282366920938463463374607431768211455"
    );
}
