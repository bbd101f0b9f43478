//! The ways a conversion can fail.

use vstd::prelude::*;

verus! {

/// Why an input was rejected.
#[derive(Debug, Clone, Copy, PartialEq, Eq, Structural)]
pub enum CodecError {
    /// A dotted-decimal arc is missing, empty or holds a character that is
    /// not a decimal digit.
    ParseArc,
    /// An arc does not fit in 128 bits.
    Overflow,
    /// Forty times the first arc plus the second arc does not fit in one octet.
    FirstArcRange,
    /// The encoded object identifier is longer than 255 bytes.
    PayloadTooLong,
    /// A hex blob is empty, has an odd number of digits or holds a character
    /// that is not a hex digit.
    HexParse,
    /// The leading length byte differs from the number of bytes that follow.
    LengthMismatch,
    /// The bytes end before an arc is complete.
    Truncated,
    /// A serial number is not exactly 24 hex digits.
    SerialHex,
    /// The last arc does not fit in 96 bits.
    SerialOverflow,
    /// The input is neither a dotted-decimal identifier, nor a serial number,
    /// nor a hex blob.
    InputFormat,
}

impl CodecError {
    /// The upper-case name of the error kind.
    pub open spec fn spec_name(self) -> Seq<char> {
        match self {
            CodecError::ParseArc => "PARSE_ARC"@,
            CodecError::Overflow => "OVERFLOW"@,
            CodecError::FirstArcRange => "FIRST_ARC_RANGE"@,
            CodecError::PayloadTooLong => "PAYLOAD_TOO_LONG"@,
            CodecError::HexParse => "HEX_PARSE"@,
            CodecError::LengthMismatch => "LENGTH_MISMATCH"@,
            CodecError::Truncated => "TRUNCATED"@,
            CodecError::SerialHex => "SERIAL_HEX"@,
            CodecError::SerialOverflow => "SERIAL_OVERFLOW"@,
            CodecError::InputFormat => "INPUT_FORMAT"@,
        }
    }

    /// The upper-case name of the error kind, as it is shown to a user.
    pub fn name(&self) -> (text: &'static str)
        ensures
            text@ == self.spec_name(),
    {
        match self {
            CodecError::ParseArc => "PARSE_ARC",
            CodecError::Overflow => "OVERFLOW",
            CodecError::FirstArcRange => "FIRST_ARC_RANGE",
            CodecError::PayloadTooLong => "PAYLOAD_TOO_LONG",
            CodecError::HexParse => "HEX_PARSE",
            CodecError::LengthMismatch => "LENGTH_MISMATCH",
            CodecError::Truncated => "TRUNCATED",
            CodecError::SerialHex => "SERIAL_HEX",
            CodecError::SerialOverflow => "SERIAL_OVERFLOW",
            CodecError::InputFormat => "INPUT_FORMAT",
        }
    }
}

} // verus!
