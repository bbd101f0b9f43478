//! One input in any of the three forms, all three forms out.

use crate::engine::{
    convert_objid_dotted_decimal_to_hex, convert_objid_hex_to_dotted_decimal, dotted_of_hex,
    hex_of_dotted, leading_byte, lemma_lower_hex_blob_shape,
};
use crate::error::CodecError;
use crate::hex::{
    decode_hex, encode_hex, hex_digit_value, hex_value, is_hex_text, is_lower_hex_text,
    lemma_hex_normalizes, lower_hex_text,
};
use crate::serial::{
    dotted_of_serial, dotted_to_serial, serial_of_dotted, serial_to_dotted, SERIAL_DIGITS,
};
use crate::text::to_chars;
use vstd::prelude::*;

verus! {

/// The form an input is taken to be in.
#[derive(Debug, Clone, Copy, PartialEq, Eq, Structural)]
pub enum InputFormat {
    /// Dotted-decimal text of an identifier.
    Dotted,
    /// The 24 hex digits of a serial number.
    Serial,
    /// The hex text of a length-prefixed identifier.
    HexEngine,
}

/// The form of `input`: dotted-decimal when it holds a `.`; else a serial
/// number when it is exactly 24 hex digits; else a hex blob.
pub open spec fn format_of(input: Seq<char>) -> InputFormat {
    if input.contains('.') {
        InputFormat::Dotted
    } else if input.len() == 24 && is_hex_text(input) {
        InputFormat::Serial
    } else {
        InputFormat::HexEngine
    }
}

/// The three forms of one engine identifier, as text.
pub ghost struct EngineIdText {
    pub hex: Seq<char>,
    pub dotted: Seq<char>,
    pub serial: Seq<char>,
}

/// The three forms of one engine identifier.
#[derive(Debug, PartialEq, Eq)]
pub struct EngineId {
    /// The hex text of the length-prefixed identifier, in lower case.
    pub hex: String,
    /// The identifier in dotted-decimal text.
    pub dotted: String,
    /// The 24 hex digits of the serial number in the last arc, in lower case.
    pub serial: String,
}

impl View for EngineId {
    type V = EngineIdText;

    open spec fn view(&self) -> EngineIdText {
        EngineIdText { hex: self.hex@, dotted: self.dotted@, serial: self.serial@ }
    }
}

/// The three forms of the dotted-decimal identifier `dotted`: its hex blob,
/// the text as it came, and the serial number of its last arc.
pub open spec fn converted_dotted(dotted: Seq<char>) -> Result<EngineIdText, CodecError> {
    match hex_of_dotted(dotted) {
        Ok(hex) => match serial_of_dotted(dotted) {
            Ok(serial) => Ok(EngineIdText { hex, dotted, serial }),
            Err(e) => Err(e),
        },
        Err(e) => Err(e),
    }
}

/// The three forms of the identifier that carries the serial number `serial`
/// under the vendor prefix.
pub open spec fn converted_serial(serial: Seq<char>) -> Result<EngineIdText, CodecError> {
    match dotted_of_serial(serial) {
        Ok(dotted) => converted_dotted(dotted),
        Err(e) => Err(e),
    }
}

/// The three forms of the identifier in the hex blob `hex`, with the blob
/// itself in lower case. Text that is no hex blob at all is in none of the
/// known forms, which is `InputFormat`.
pub open spec fn converted_hex(hex: Seq<char>) -> Result<EngineIdText, CodecError> {
    match dotted_of_hex(hex) {
        Ok(dotted) => match serial_of_dotted(dotted) {
            Ok(serial) => Ok(EngineIdText { hex: lower_hex_text(hex), dotted, serial }),
            Err(e) => Err(e),
        },
        Err(CodecError::HexParse) => Err(CodecError::InputFormat),
        Err(e) => Err(e),
    }
}

/// The three forms of the identifier that `input` names, whichever of the
/// forms it is in.
pub open spec fn converted(input: Seq<char>) -> Result<EngineIdText, CodecError> {
    match format_of(input) {
        InputFormat::Dotted => converted_dotted(input),
        InputFormat::Serial => converted_serial(input),
        InputFormat::HexEngine => converted_hex(input),
    }
}

/// The hex forms of `id` are in lower case: the blob has an even number of
/// digits, of which the first two count the pairs behind them, and the
/// serial number has 24 digits.
pub open spec fn is_well_shaped(id: EngineIdText) -> bool {
    &&& is_lower_hex_text(id.hex)
    &&& id.hex.len() >= 4
    &&& id.hex.len() % 2 == 0
    &&& leading_byte(id.hex) == (id.hex.len() - 2) / 2
    &&& is_lower_hex_text(id.serial)
    &&& id.serial.len() == 24
}

/// Tells which of the three forms `input` is in.
pub fn detect_format(input: &str) -> (format: InputFormat)
    ensures
        format == format_of(input@),
{
    let chars = to_chars(input);
    let len = chars.len();
    let mut i: usize = 0;
    while i < len
        invariant
            chars@ == input@,
            len == chars@.len(),
            i <= len,
            forall|j: int| 0 <= j < i ==> chars@[j] != '.',
        decreases len - i,
    {
        if chars[i] == '.' {
            assert(chars@.contains('.'));
            return InputFormat::Dotted;
        }
        i = i + 1;
    }
    if len != SERIAL_DIGITS {
        return InputFormat::HexEngine;
    }
    let mut k: usize = 0;
    while k < len
        invariant
            chars@ == input@,
            !chars@.contains('.'),
            len == chars@.len(),
            len == 24,
            k <= len,
            forall|j: int| 0 <= j < k ==> (#[trigger] hex_digit_value(chars@[j])) is Some,
        decreases len - k,
    {
        if hex_value(chars[k]).is_none() {
            assert(hex_digit_value(chars@[k as int]) is None);
            return InputFormat::HexEngine;
        }
        k = k + 1;
    }
    InputFormat::Serial
}

/// Works out the three forms of a dotted-decimal identifier.
fn convert_dotted(dotted: &str) -> (r: Result<EngineId, CodecError>)
    ensures
        match r {
            Ok(id) => converted_dotted(dotted@) == Ok::<EngineIdText, CodecError>(id@)
                && is_well_shaped(id@),
            Err(e) => converted_dotted(dotted@) == Err::<EngineIdText, CodecError>(e),
        },
{
    let hex = match convert_objid_dotted_decimal_to_hex(dotted) {
        Ok(hex) => hex,
        Err(e) => {
            return Err(e);
        },
    };
    let serial = match dotted_to_serial(dotted) {
        Ok(serial) => serial,
        Err(e) => {
            return Err(e);
        },
    };
    Ok(EngineId { hex, dotted: String::from_str(dotted), serial })
}

/// Works out the three forms of the identifier that carries a serial number.
fn convert_serial(serial: &str) -> (r: Result<EngineId, CodecError>)
    ensures
        match r {
            Ok(id) => converted_serial(serial@) == Ok::<EngineIdText, CodecError>(id@)
                && is_well_shaped(id@),
            Err(e) => converted_serial(serial@) == Err::<EngineIdText, CodecError>(e),
        },
{
    match serial_to_dotted(serial) {
        Ok(dotted) => convert_dotted(dotted.as_str()),
        Err(e) => Err(e),
    }
}

/// Works out the three forms of the identifier in a hex blob.
fn convert_hex(hex: &str) -> (r: Result<EngineId, CodecError>)
    ensures
        match r {
            Ok(id) => converted_hex(hex@) == Ok::<EngineIdText, CodecError>(id@) && is_well_shaped(
                id@,
            ),
            Err(e) => converted_hex(hex@) == Err::<EngineIdText, CodecError>(e),
        },
{
    let dotted = match convert_objid_hex_to_dotted_decimal(hex) {
        Ok(dotted) => dotted,
        Err(CodecError::HexParse) => {
            return Err(CodecError::InputFormat);
        },
        Err(e) => {
            return Err(e);
        },
    };
    let serial = match dotted_to_serial(dotted.as_str()) {
        Ok(serial) => serial,
        Err(e) => {
            return Err(e);
        },
    };
    let chars = to_chars(hex);
    let lower = match decode_hex(chars.as_slice()) {
        Some(blob) => encode_hex(blob.as_slice()),
        None => {
            return Err(CodecError::InputFormat);
        },
    };
    proof {
        lemma_hex_normalizes(hex@);
        lemma_lower_hex_blob_shape(hex@);
    }
    Ok(EngineId { hex: lower, dotted, serial })
}

/// Works out all three forms of the identifier that `input` names, whichever
/// of the forms it is in.
///
/// The hex forms come out in lower case: the blob with an even number of
/// digits, of which the first two count the pairs behind them, and the
/// serial number with 24 digits.
pub fn convert_engine_id(input: &str) -> (r: Result<EngineId, CodecError>)
    ensures
        match r {
            Ok(id) => converted(input@) == Ok::<EngineIdText, CodecError>(id@) && is_well_shaped(
                id@,
            ),
            Err(e) => converted(input@) == Err::<EngineIdText, CodecError>(e),
        },
{
    match detect_format(input) {
        InputFormat::Dotted => convert_dotted(input),
        InputFormat::Serial => convert_serial(input),
        InputFormat::HexEngine => convert_hex(input),
    }
}

} // verus!
