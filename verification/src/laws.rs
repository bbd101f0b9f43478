//! What holds of the conversions taken together.

use crate::convert::{converted, format_of, is_well_shaped, InputFormat};
use crate::decimal::decimal_string;
use crate::dotted::{
    arcs_of_dotted, dotted_string, lemma_dotted_string_push, lemma_parse_format,
};
use crate::engine::{
    dotted_of_hex, hex_of_dotted, lemma_hex_of_dotted_shape, lemma_lower_hex_blob_shape,
};
use crate::error::CodecError;
use crate::frame::lemma_frame_roundtrip;
use crate::hex::{
    hex_digit_value, hex_number, hex_string, lemma_hex_normalizes, lemma_hex_number_bound,
    lemma_hex_roundtrip, lemma_hex_string_is_lower, lemma_pow16, lower_hex_text, parse_hex,
};
use crate::oid::{
    arcs_encoding, arcs_of_blob, blob_of, first_octet, is_minimal_payload,
    lemma_arcs_encoding_len, lemma_decode_encode, lemma_encode_decode, lemma_payload_is_minimal,
    payload_of,
};
use crate::serial::{
    dotted_of_serial, hex_of_serial, lemma_serial_of_dotted_shape, lemma_serial_roundtrip,
    lemma_serial_text_roundtrip, lemma_vendor_prefix, serial_of_hex, serial_text, serial_value,
    vendor_arcs, SERIAL_LIMIT, VENDOR_PREFIX,
};
use vstd::prelude::*;

verus! {

/// Dotted-decimal text to hex and back: the text of an identifier whose
/// second arc is below forty, whose first two arcs fold into one byte and
/// whose payload fits behind one length byte comes back unchanged.
pub proof fn law_dotted_hex_dotted(arcs: Seq<u128>)
    requires
        arcs.len() >= 2,
        first_octet(arcs) <= 255,
        arcs[1] < 40,
        1 + arcs_encoding(arcs.skip(2)).len() <= 255,
    ensures
        hex_of_dotted(dotted_string(arcs)) == Ok::<Seq<char>, CodecError>(
            hex_string(blob_of(arcs)->Ok_0),
        ),
        dotted_of_hex(hex_of_dotted(dotted_string(arcs))->Ok_0) == Ok::<Seq<char>, CodecError>(
            dotted_string(arcs),
        ),
{
    let blob = blob_of(arcs)->Ok_0;
    lemma_parse_format(arcs);
    lemma_frame_roundtrip(payload_of(arcs)->Ok_0);
    lemma_decode_encode(arcs);
    lemma_hex_roundtrip(blob);
    lemma_hex_string_is_lower(blob);
}

/// Hex to dotted-decimal text and back: a hex blob that can be read, and in
/// which every arc is in its shortest form, comes back in lower case.
pub proof fn law_hex_dotted_hex(hex: Seq<char>)
    requires
        dotted_of_hex(hex) is Ok,
        is_minimal_payload(parse_hex(hex)->0.skip(1)),
    ensures
        hex_of_dotted(dotted_of_hex(hex)->Ok_0) == Ok::<Seq<char>, CodecError>(
            lower_hex_text(hex),
        ),
{
    let blob = parse_hex(hex)->0;
    let arcs = arcs_of_blob(blob)->Ok_0;
    lemma_encode_decode(blob);
    lemma_parse_format(arcs);
    lemma_hex_normalizes(hex);
}

/// Every hex blob that comes out of dotted-decimal text holds its arcs in
/// their shortest form, so it comes back unchanged from a second pass
/// through dotted-decimal text.
pub proof fn law_hex_output_is_minimal(dotted: Seq<char>)
    requires
        hex_of_dotted(dotted) is Ok,
    ensures
        parse_hex(hex_of_dotted(dotted)->Ok_0) is Some,
        is_minimal_payload(parse_hex(hex_of_dotted(dotted)->Ok_0)->0.skip(1)),
{
    let arcs = arcs_of_dotted(dotted)->Ok_0;
    let payload = payload_of(arcs)->Ok_0;
    let blob = blob_of(arcs)->Ok_0;
    lemma_payload_is_minimal(arcs);
    lemma_frame_roundtrip(payload);
    lemma_hex_roundtrip(blob);
}

/// The identifier that carries a serial number under the vendor prefix
/// always has a hex blob, and the serial number comes out of that blob
/// unchanged.
pub proof fn law_serial_through_hex(n: nat)
    requires
        n < SERIAL_LIMIT,
    ensures
        hex_of_serial(serial_text(n)) is Ok,
        serial_of_hex(hex_of_serial(serial_text(n))->Ok_0) == Ok::<Seq<char>, CodecError>(
            serial_text(n),
        ),
{
    let arcs = vendor_arcs().push(n as u128);
    lemma_serial_roundtrip(n);
    lemma_vendor_prefix();
    lemma_dotted_string_push(vendor_arcs(), n as u128);
    lemma_arcs_encoding_len(arcs.skip(2));
    law_dotted_hex_dotted(arcs);
}

/// A serial number of either case is always converted, and comes back in
/// lower case beside the identifier under the vendor prefix.
pub proof fn law_serial_input_converts(serial: Seq<char>)
    requires
        serial_value(serial) is Ok,
    ensures
        converted(serial) is Ok,
        converted(serial)->Ok_0.serial == lower_hex_text(serial),
        converted(serial)->Ok_0.dotted == VENDOR_PREFIX@ + decimal_string(hex_number(serial)),
{
    let n = hex_number(serial);
    lemma_hex_number_bound(serial);
    lemma_pow16(24);
    lemma_serial_text_roundtrip(serial);
    lemma_serial_roundtrip(n);
    law_serial_through_hex(n);
    assert(!serial.contains('.')) by {
        if serial.contains('.') {
            let i = choose|i: int| 0 <= i < serial.len() && serial[i] == '.';
            assert(hex_digit_value(serial[i]) is Some);
        }
    }
    assert(format_of(serial) == InputFormat::Serial);
}

/// Whatever is converted comes out with its hex forms in lower case: the
/// blob with an even number of digits, of which the first two count the
/// pairs behind them, and the serial number with 24 digits.
pub proof fn law_converted_is_well_shaped(input: Seq<char>)
    requires
        converted(input) is Ok,
    ensures
        is_well_shaped(converted(input)->Ok_0),
{
    match format_of(input) {
        InputFormat::Dotted => {
            lemma_hex_of_dotted_shape(input);
            lemma_serial_of_dotted_shape(input);
        },
        InputFormat::Serial => {
            let dotted = dotted_of_serial(input)->Ok_0;
            lemma_hex_of_dotted_shape(dotted);
            lemma_serial_of_dotted_shape(dotted);
        },
        InputFormat::HexEngine => {
            let dotted = dotted_of_hex(input)->Ok_0;
            lemma_serial_of_dotted_shape(dotted);
            lemma_lower_hex_blob_shape(input);
        },
    }
}

} // verus!
