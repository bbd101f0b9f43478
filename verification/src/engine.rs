//! Engine identifiers: the object identifier of a device, as dotted-decimal
//! text or as the hex text of its length-prefixed blob.

use crate::dotted::{arcs_of_dotted, dotted_string, format_dotted, parse_dotted};
use crate::error::CodecError;
use crate::frame::{framed, unframed};
use crate::hex::{
    decode_hex, encode_hex, hex_bytes, hex_digit, hex_digit_value, hex_string,
    is_lower_hex_digit, is_lower_hex_text, lemma_hex_digit, lemma_hex_string_is_lower,
    lower_hex_text, parse_hex,
};
use crate::oid::{arcs_of_blob, arcs_of_payload, blob_of, payload_of, Oid};
use crate::text::to_chars;
use vstd::prelude::*;

verus! {

/// The dotted-decimal text of the identifier in the hex blob `hex`.
///
/// `HexParse` when `hex` is empty, has an odd number of characters or holds
/// one that is not a hex digit; otherwise whatever reading the bytes as a
/// length-prefixed identifier fails with.
pub open spec fn dotted_of_hex(hex: Seq<char>) -> Result<Seq<char>, CodecError> {
    if hex.len() == 0 || parse_hex(hex) is None {
        Err(CodecError::HexParse)
    } else {
        match arcs_of_blob(parse_hex(hex)->0) {
            Ok(arcs) => Ok(dotted_string(arcs)),
            Err(e) => Err(e),
        }
    }
}

/// The lower-case hex text of the length-prefixed blob of the identifier
/// that `dotted` spells.
pub open spec fn hex_of_dotted(dotted: Seq<char>) -> Result<Seq<char>, CodecError> {
    match arcs_of_dotted(dotted) {
        Ok(arcs) => match blob_of(arcs) {
            Ok(blob) => Ok(hex_string(blob)),
            Err(e) => Err(e),
        },
        Err(e) => Err(e),
    }
}

/// The byte that the first two digits of the hex text `s` spell.
pub open spec fn leading_byte(s: Seq<char>) -> int {
    16 * hex_digit_value(s[0])->0 + hex_digit_value(s[1])->0
}

/// Turns the hex text of a length-prefixed identifier into dotted-decimal
/// text.
///
/// Fails, in this order, with `HexParse` when `hex` is empty, has an odd
/// number of characters or holds one that is not a hex digit;
/// `LengthMismatch` when the first byte is not the number of bytes after
/// it; `Truncated` when no byte follows the length byte or the last arc is
/// not complete; `Overflow` when an arc does not fit in 128 bits.
pub fn convert_objid_hex_to_dotted_decimal(hex: &str) -> (r: Result<String, CodecError>)
    ensures
        match r {
            Ok(dotted) => dotted_of_hex(hex@) == Ok::<Seq<char>, CodecError>(dotted@),
            Err(e) => dotted_of_hex(hex@) == Err::<Seq<char>, CodecError>(e),
        },
{
    let chars = to_chars(hex);
    if chars.len() == 0 {
        return Err(CodecError::HexParse);
    }
    let blob = match decode_hex(chars.as_slice()) {
        Some(blob) => blob,
        None => {
            return Err(CodecError::HexParse);
        },
    };
    match Oid::decode(blob.as_slice()) {
        Ok(oid) => Ok(format_dotted(&oid)),
        Err(e) => Err(e),
    }
}

/// Turns the dotted-decimal text of an identifier into the hex text of its
/// length-prefixed blob.
///
/// The text that comes out is in lower case, and its first two digits spell
/// the number of digit pairs after them.
///
/// Fails, in this order, with `ParseArc` when `dotted` has fewer than two
/// arcs or an arc that is empty or holds a character that is not a decimal
/// digit; `Overflow` when an arc does not fit in 128 bits; `FirstArcRange`
/// when forty times the first arc plus the second is more than 255;
/// `PayloadTooLong` when the arcs take more than 255 bytes.
pub fn convert_objid_dotted_decimal_to_hex(dotted: &str) -> (r: Result<String, CodecError>)
    ensures
        match r {
            Ok(hex) => {
                &&& hex_of_dotted(dotted@) == Ok::<Seq<char>, CodecError>(hex@)
                &&& is_lower_hex_text(hex@)
                &&& hex@.len() >= 4
                &&& hex@.len() % 2 == 0
                &&& leading_byte(hex@) == (hex@.len() - 2) / 2
            },
            Err(e) => hex_of_dotted(dotted@) == Err::<Seq<char>, CodecError>(e),
        },
{
    let chars = to_chars(dotted);
    let oid = match parse_dotted(chars.as_slice()) {
        Ok(oid) => oid,
        Err(e) => {
            return Err(e);
        },
    };
    let blob = match oid.encode() {
        Ok(blob) => blob,
        Err(e) => {
            return Err(e);
        },
    };
    proof {
        lemma_hex_of_dotted_shape(dotted@);
    }
    Ok(encode_hex(blob.as_slice()))
}

/// Hex text that comes out of a dotted-decimal identifier is in lower case,
/// has an even number of digits, and begins with the byte that counts the
/// digit pairs after it; there is at least one such pair.
pub proof fn lemma_hex_of_dotted_shape(dotted: Seq<char>)
    requires
        hex_of_dotted(dotted) is Ok,
    ensures
        is_lower_hex_text(hex_of_dotted(dotted)->Ok_0),
        hex_of_dotted(dotted)->Ok_0.len() >= 4,
        hex_of_dotted(dotted)->Ok_0.len() % 2 == 0,
        leading_byte(hex_of_dotted(dotted)->Ok_0) == (hex_of_dotted(dotted)->Ok_0.len() - 2) / 2,
{
    let arcs = arcs_of_dotted(dotted)->Ok_0;
    let payload = payload_of(arcs)->Ok_0;
    let blob = blob_of(arcs)->Ok_0;
    let hex = hex_string(blob);
    assert(framed(payload) == Ok::<Seq<u8>, CodecError>(blob));
    assert(blob.len() == payload.len() + 1);
    assert(blob[0] == payload.len());
    lemma_hex_string_is_lower(blob);
    lemma_hex_digit(blob[0] as int / 16);
    lemma_hex_digit(blob[0] as int % 16);
    assert(hex[0] == hex_digit(blob[0] as int / 16));
    assert(hex[1] == hex_digit(blob[0] as int % 16));
}

/// A hex blob that can be read keeps, in lower case, its length and the
/// byte that its first two digits spell, and that byte counts the digit
/// pairs behind it; there is at least one such pair.
pub proof fn lemma_lower_hex_blob_shape(hex: Seq<char>)
    requires
        dotted_of_hex(hex) is Ok,
    ensures
        is_lower_hex_text(lower_hex_text(hex)),
        lower_hex_text(hex).len() == hex.len(),
        hex.len() >= 4,
        hex.len() % 2 == 0,
        leading_byte(lower_hex_text(hex)) == (hex.len() - 2) / 2,
{
    let lower = lower_hex_text(hex);
    let blob = parse_hex(hex)->0;
    assert forall|i: int| 0 <= i < lower.len() implies is_lower_hex_digit(#[trigger] lower[i]) by {
        assert(hex_digit_value(hex[i]) is Some);
        lemma_hex_digit(hex_digit_value(hex[i])->0);
    }
    assert(unframed(blob) is Ok);
    assert(arcs_of_payload(blob.skip(1)) is Ok);
    assert(hex_digit_value(hex[0]) is Some);
    assert(hex_digit_value(hex[1]) is Some);
    lemma_hex_digit(hex_digit_value(hex[0])->0);
    lemma_hex_digit(hex_digit_value(hex[1])->0);
    assert(blob[0] == hex_bytes(hex)[0]);
}

} // verus!
