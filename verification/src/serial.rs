//! Serial numbers: the 96-bit number in the last arc of an engine
//! identifier, written as 24 hex digits.

use crate::decimal::{
    append_decimal, decimal_string, decimal_value, is_decimal_text, lemma_decimal_string,
    parse_decimal,
};
use crate::dotted::{dotted_string, lemma_dotted_string_push};
use crate::engine::{
    convert_objid_dotted_decimal_to_hex, convert_objid_hex_to_dotted_decimal, dotted_of_hex,
    hex_of_dotted, leading_byte,
};
use crate::error::CodecError;
use crate::hex::{
    append_hex_padded, hex_number, hex_padded, hex_value, is_hex_text, is_lower_hex_text,
    lemma_hex_number_bound, lemma_hex_padded, lemma_hex_padded_normalizes, lemma_pow16,
    lower_hex_text,
};
use crate::text::to_chars;
use vstd::prelude::*;
use vstd::slice::slice_subrange;

verus! {

/// The number of hex digits in a serial number.
pub const SERIAL_DIGITS: usize = 24;

/// The least number that is too large for a serial number: two to the
/// ninety-sixth.
pub const SERIAL_LIMIT: u128 = 0x1_0000_0000_0000_0000_0000_0000;

/// The arcs under which a serial number is placed, in dotted-decimal text
/// that ends with the dot before the serial arc.
pub const VENDOR_PREFIX: &'static str = "1.3.6.1.4.1.29240.1.1.3.5.15.";

/// The arcs of the vendor prefix.
pub open spec fn vendor_arcs() -> Seq<u128> {
    seq![1u128, 3u128, 6u128, 1u128, 4u128, 1u128, 29240u128, 1u128, 1u128, 3u128, 5u128, 15u128]
}

/// The text of the serial number `n`: 24 lower-case hex digits.
pub open spec fn serial_text(n: nat) -> Seq<char> {
    hex_padded(n, 24)
}

/// The number of the serial text `s`, or `SerialHex` when `s` is not 24 hex
/// digits.
pub open spec fn serial_value(s: Seq<char>) -> Result<u128, CodecError> {
    if s.len() == 24 && is_hex_text(s) {
        Ok(hex_number(s) as u128)
    } else {
        Err(CodecError::SerialHex)
    }
}

/// The dotted-decimal identifier that carries the serial number `serial`
/// under the vendor prefix.
pub open spec fn dotted_of_serial(serial: Seq<char>) -> Result<Seq<char>, CodecError> {
    match serial_value(serial) {
        Ok(n) => Ok(VENDOR_PREFIX@ + decimal_string(n as nat)),
        Err(e) => Err(e),
    }
}

/// Where the last arc of `s` begins: after the last `.`, or at the start
/// when there is none.
pub open spec fn last_arc_start(s: Seq<char>) -> int
    decreases s.len(),
{
    if s.len() == 0 {
        0
    } else if s.last() == '.' {
        s.len() as int
    } else {
        last_arc_start(s.drop_last())
    }
}

/// The text of the last arc of `s`.
pub open spec fn last_arc_text(s: Seq<char>) -> Seq<char> {
    s.skip(last_arc_start(s))
}

/// The serial text for the last arc of the dotted-decimal text `dotted`.
///
/// `ParseArc` when the last arc is not a decimal number, `Overflow` when it
/// does not fit in 128 bits, `SerialOverflow` when it does not fit in 96.
/// The arcs before the last are not looked at.
pub open spec fn serial_of_dotted(dotted: Seq<char>) -> Result<Seq<char>, CodecError> {
    let last = last_arc_text(dotted);
    if !is_decimal_text(last) {
        Err(CodecError::ParseArc)
    } else if decimal_value(last) > u128::MAX {
        Err(CodecError::Overflow)
    } else if decimal_value(last) >= SERIAL_LIMIT {
        Err(CodecError::SerialOverflow)
    } else {
        Ok(serial_text(decimal_value(last)))
    }
}

/// The serial text for the last arc of the identifier in the hex blob `hex`.
pub open spec fn serial_of_hex(hex: Seq<char>) -> Result<Seq<char>, CodecError> {
    match dotted_of_hex(hex) {
        Ok(dotted) => serial_of_dotted(dotted),
        Err(e) => Err(e),
    }
}

/// The hex blob of the identifier that carries the serial number `serial`
/// under the vendor prefix.
pub open spec fn hex_of_serial(serial: Seq<char>) -> Result<Seq<char>, CodecError> {
    match dotted_of_serial(serial) {
        Ok(dotted) => hex_of_dotted(dotted),
        Err(e) => Err(e),
    }
}

/// The 24 hex digits of the serial number `n`, or `SerialOverflow` when `n`
/// does not fit in 96 bits.
pub fn format_serial(n: u128) -> (r: Result<String, CodecError>)
    ensures
        match r {
            Ok(text) => {
                &&& n < SERIAL_LIMIT
                &&& text@ == serial_text(n as nat)
                &&& text@.len() == 24
                &&& is_lower_hex_text(text@)
            },
            Err(e) => e == CodecError::SerialOverflow && n >= SERIAL_LIMIT,
        },
{
    if n >= SERIAL_LIMIT {
        return Err(CodecError::SerialOverflow);
    }
    let mut text = String::new();
    append_hex_padded(&mut text, n, SERIAL_DIGITS);
    proof {
        lemma_hex_padded(n as nat, 24);
    }
    Ok(text)
}

/// Reads the 24 hex digits `chars` as a serial number.
pub fn parse_serial(chars: &[char]) -> (r: Result<u128, CodecError>)
    ensures
        match r {
            Ok(n) => serial_value(chars@) == Ok::<u128, CodecError>(n) && n < SERIAL_LIMIT,
            Err(e) => serial_value(chars@) == Err::<u128, CodecError>(e),
        },
{
    if chars.len() != SERIAL_DIGITS {
        return Err(CodecError::SerialHex);
    }
    let mut n: u128 = 0;
    let mut i: usize = 0;
    while i < SERIAL_DIGITS
        invariant
            chars@.len() == 24,
            i <= 24,
            is_hex_text(chars@.take(i as int)),
            n == hex_number(chars@.take(i as int)),
        decreases 24 - i,
    {
        let d = match hex_value(chars[i]) {
            Some(d) => d,
            None => {
                return Err(CodecError::SerialHex);
            },
        };
        proof {
            let before = chars@.take(i as int);
            assert(chars@.take(i as int + 1).drop_last() =~= before);
            lemma_hex_number_bound(before);
            lemma_pow16(i as nat);
        }
        n = n * 16 + d as u128;
        i = i + 1;
    }
    proof {
        assert(chars@.take(i as int) =~= chars@);
        lemma_hex_number_bound(chars@);
        lemma_pow16(24);
    }
    Ok(n)
}

/// The dotted-decimal identifier that carries the serial number `serial`
/// under the vendor prefix.
pub fn serial_to_dotted(serial: &str) -> (r: Result<String, CodecError>)
    ensures
        match r {
            Ok(dotted) => dotted_of_serial(serial@) == Ok::<Seq<char>, CodecError>(dotted@),
            Err(e) => dotted_of_serial(serial@) == Err::<Seq<char>, CodecError>(e),
        },
{
    let chars = to_chars(serial);
    match parse_serial(chars.as_slice()) {
        Ok(n) => {
            let mut dotted = String::from_str(VENDOR_PREFIX);
            append_decimal(&mut dotted, n);
            Ok(dotted)
        },
        Err(e) => Err(e),
    }
}

/// The serial text for the last arc of the dotted-decimal text `dotted`.
pub fn dotted_to_serial(dotted: &str) -> (r: Result<String, CodecError>)
    ensures
        match r {
            Ok(serial) => {
                &&& serial_of_dotted(dotted@) == Ok::<Seq<char>, CodecError>(serial@)
                &&& serial@.len() == 24
                &&& is_lower_hex_text(serial@)
            },
            Err(e) => serial_of_dotted(dotted@) == Err::<Seq<char>, CodecError>(e),
        },
{
    let chars = to_chars(dotted);
    let len = chars.len();
    let mut start: usize = len;
    assert(chars@.take(len as int) =~= chars@);
    while start > 0 && chars[start - 1] != '.'
        invariant
            len == chars@.len(),
            start <= len,
            last_arc_start(chars@) == last_arc_start(chars@.take(start as int)),
        decreases start,
    {
        assert(chars@.take(start as int).drop_last() =~= chars@.take(start as int - 1));
        start = start - 1;
    }
    let last = slice_subrange(chars.as_slice(), start, len);
    match parse_decimal(last) {
        Ok(n) => format_serial(n),
        Err(e) => Err(e),
    }
}

/// The serial text for the last arc of the identifier in the hex blob `hex`.
pub fn hex_engine_to_serial(hex: &str) -> (r: Result<String, CodecError>)
    ensures
        match r {
            Ok(serial) => {
                &&& serial_of_hex(hex@) == Ok::<Seq<char>, CodecError>(serial@)
                &&& serial@.len() == 24
                &&& is_lower_hex_text(serial@)
            },
            Err(e) => serial_of_hex(hex@) == Err::<Seq<char>, CodecError>(e),
        },
{
    match convert_objid_hex_to_dotted_decimal(hex) {
        Ok(dotted) => dotted_to_serial(dotted.as_str()),
        Err(e) => Err(e),
    }
}

/// The hex blob of the identifier that carries the serial number `serial`
/// under the vendor prefix.
pub fn serial_to_hex_engine(serial: &str) -> (r: Result<String, CodecError>)
    ensures
        match r {
            Ok(hex) => {
                &&& hex_of_serial(serial@) == Ok::<Seq<char>, CodecError>(hex@)
                &&& is_lower_hex_text(hex@)
                &&& hex@.len() >= 4
                &&& hex@.len() % 2 == 0
                &&& leading_byte(hex@) == (hex@.len() - 2) / 2
            },
            Err(e) => hex_of_serial(serial@) == Err::<Seq<char>, CodecError>(e),
        },
{
    match serial_to_dotted(serial) {
        Ok(dotted) => convert_objid_dotted_decimal_to_hex(dotted.as_str()),
        Err(e) => Err(e),
    }
}

/// A serial number that comes out of dotted-decimal text has 24 lower-case
/// hex digits.
pub proof fn lemma_serial_of_dotted_shape(dotted: Seq<char>)
    requires
        serial_of_dotted(dotted) is Ok,
    ensures
        is_lower_hex_text(serial_of_dotted(dotted)->Ok_0),
        serial_of_dotted(dotted)->Ok_0.len() == 24,
{
    lemma_hex_padded(decimal_value(last_arc_text(dotted)), 24);
}

/// The vendor prefix is the dotted-decimal text of its arcs with a dot behind
/// it.
pub proof fn lemma_vendor_prefix()
    ensures
        VENDOR_PREFIX@ == dotted_string(vendor_arcs()) + seq!['.'],
        VENDOR_PREFIX@.len() == 29,
        VENDOR_PREFIX@.last() == '.',
{
    reveal_strlit("1.3.6.1.4.1.29240.1.1.3.5.15.");
    reveal_with_fuel(decimal_string, 6);
    let a1 = seq![1u128];
    let a2 = a1.push(3);
    let a3 = a2.push(6);
    let a4 = a3.push(1);
    let a5 = a4.push(4);
    let a6 = a5.push(1);
    let a7 = a6.push(29240);
    let a8 = a7.push(1);
    let a9 = a8.push(1);
    let a10 = a9.push(3);
    let a11 = a10.push(5);
    let a12 = a11.push(15);
    lemma_dotted_string_push(a1, 3);
    lemma_dotted_string_push(a2, 6);
    lemma_dotted_string_push(a3, 1);
    lemma_dotted_string_push(a4, 4);
    lemma_dotted_string_push(a5, 1);
    lemma_dotted_string_push(a6, 29240);
    lemma_dotted_string_push(a7, 1);
    lemma_dotted_string_push(a8, 1);
    lemma_dotted_string_push(a9, 3);
    lemma_dotted_string_push(a10, 5);
    lemma_dotted_string_push(a11, 15);
    assert(a12 =~= vendor_arcs());
}

/// Behind text that ends with a dot, text without dots is the last arc.
pub proof fn lemma_last_arc_after_dot(before: Seq<char>, last: Seq<char>)
    requires
        before.len() > 0,
        before.last() == '.',
        !last.contains('.'),
    ensures
        last_arc_start(before + last) == before.len(),
        last_arc_text(before + last) == last,
    decreases last.len(),
{
    if last.len() > 0 {
        let head = last.drop_last();
        lemma_last_arc_after_dot(before, head);
        assert((before + last).drop_last() =~= before + head);
    }
}

/// A serial number goes into the identifier under the vendor prefix and
/// comes out of it unchanged, and its text reads back as the number.
pub proof fn lemma_serial_roundtrip(n: nat)
    requires
        n < SERIAL_LIMIT,
    ensures
        serial_value(serial_text(n)) == Ok::<u128, CodecError>(n as u128),
        dotted_of_serial(serial_text(n)) == Ok::<Seq<char>, CodecError>(
            VENDOR_PREFIX@ + decimal_string(n),
        ),
        serial_of_dotted(VENDOR_PREFIX@ + decimal_string(n)) == Ok::<Seq<char>, CodecError>(
            serial_text(n),
        ),
{
    lemma_pow16(24);
    lemma_hex_padded(n, 24);
    lemma_vendor_prefix();
    lemma_decimal_string(n);
    lemma_last_arc_after_dot(VENDOR_PREFIX@, decimal_string(n));
}

/// Serial text of either case comes back in lower case when it is placed
/// under the vendor prefix and taken out again.
pub proof fn lemma_serial_text_roundtrip(serial: Seq<char>)
    requires
        serial_value(serial) is Ok,
    ensures
        dotted_of_serial(serial) is Ok,
        serial_of_dotted(dotted_of_serial(serial)->Ok_0) == Ok::<Seq<char>, CodecError>(
            lower_hex_text(serial),
        ),
{
    let n = hex_number(serial);
    lemma_hex_number_bound(serial);
    lemma_pow16(24);
    lemma_serial_roundtrip(n);
    lemma_hex_padded_normalizes(serial);
}

} // verus!
