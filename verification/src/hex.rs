//! Hexadecimal text: two digits per byte, written in lower case and read in
//! either case.

use vstd::prelude::*;

verus! {

/// The lower-case hex digit for a value below sixteen.
pub open spec fn hex_digit(d: int) -> char {
    seq!['0', '1', '2', '3', '4', '5', '6', '7', '8', '9', 'a', 'b', 'c', 'd', 'e', 'f'][d]
}

/// The value of a hex digit of either case; `None` for any other character.
pub open spec fn hex_digit_value(c: char) -> Option<int> {
    if '0' <= c <= '9' {
        Some(c as int - '0' as int)
    } else if 'a' <= c <= 'f' {
        Some(c as int - 'a' as int + 10)
    } else if 'A' <= c <= 'F' {
        Some(c as int - 'A' as int + 10)
    } else {
        None
    }
}

/// `c` is a decimal digit or one of the letters `a` to `f` in lower case.
pub open spec fn is_lower_hex_digit(c: char) -> bool {
    '0' <= c <= '9' || 'a' <= c <= 'f'
}

/// Every character of `s` is a hex digit.
pub open spec fn is_hex_text(s: Seq<char>) -> bool {
    forall|i: int| 0 <= i < s.len() ==> (#[trigger] hex_digit_value(s[i])) is Some
}

/// Every character of `s` is a lower-case hex digit.
pub open spec fn is_lower_hex_text(s: Seq<char>) -> bool {
    forall|i: int| 0 <= i < s.len() ==> is_lower_hex_digit(#[trigger] s[i])
}

/// `c` with the letters `A` to `F` turned into lower case.
pub open spec fn lower_hex_char(c: char) -> char {
    match hex_digit_value(c) {
        Some(d) => hex_digit(d),
        None => c,
    }
}

/// `s` with the hex letters turned into lower case.
pub open spec fn lower_hex_text(s: Seq<char>) -> Seq<char> {
    Seq::new(s.len(), |i: int| lower_hex_char(s[i]))
}

/// The lower-case hex text of `bytes`: the high digit of each byte, then its
/// low digit.
pub open spec fn hex_string(bytes: Seq<u8>) -> Seq<char> {
    Seq::new(
        2 * bytes.len(),
        |i: int|
            if i % 2 == 0 {
                hex_digit(bytes[i / 2] as int / 16)
            } else {
                hex_digit(bytes[i / 2] as int % 16)
            },
    )
}

/// The bytes that the digit pairs of `s` spell.
pub open spec fn hex_bytes(s: Seq<char>) -> Seq<u8> {
    Seq::new(
        s.len() / 2,
        |i: int| (16 * hex_digit_value(s[2 * i])->0 + hex_digit_value(s[2 * i + 1])->0) as u8,
    )
}

/// The bytes of the hex text `s`, or `None` when `s` has an odd number of
/// characters or holds one that is not a hex digit.
pub open spec fn parse_hex(s: Seq<char>) -> Option<Seq<u8>> {
    if s.len() % 2 == 0 && is_hex_text(s) {
        Some(hex_bytes(s))
    } else {
        None
    }
}

/// The number that the hex digits of `s` spell, most significant first.
pub open spec fn hex_number(s: Seq<char>) -> nat
    decreases s.len(),
{
    if s.len() == 0 {
        0
    } else {
        (hex_number(s.drop_last()) * 16 + hex_digit_value(s.last())->0) as nat
    }
}

/// The lowest `width` hex digits of `n` in lower case, most significant
/// first, with zeros on the left where `n` has fewer.
pub open spec fn hex_padded(n: nat, width: nat) -> Seq<char>
    decreases width,
{
    if width == 0 {
        Seq::empty()
    } else {
        hex_padded(n / 16, (width - 1) as nat).push(hex_digit((n % 16) as int))
    }
}

/// Sixteen to the power `k`.
pub open spec fn pow16(k: nat) -> nat
    decreases k,
{
    if k == 0 {
        1
    } else {
        16 * pow16((k - 1) as nat)
    }
}

/// The one-character text of the lower-case hex digit for `d`.
fn hex_digit_text(d: u8) -> (text: &'static str)
    requires
        d < 16,
    ensures
        text@ == seq![hex_digit(d as int)],
{
    let text = match d {
        0 => "0",
        1 => "1",
        2 => "2",
        3 => "3",
        4 => "4",
        5 => "5",
        6 => "6",
        7 => "7",
        8 => "8",
        9 => "9",
        10 => "a",
        11 => "b",
        12 => "c",
        13 => "d",
        14 => "e",
        _ => "f",
    };
    proof {
        reveal_strlit("0");
        reveal_strlit("1");
        reveal_strlit("2");
        reveal_strlit("3");
        reveal_strlit("4");
        reveal_strlit("5");
        reveal_strlit("6");
        reveal_strlit("7");
        reveal_strlit("8");
        reveal_strlit("9");
        reveal_strlit("a");
        reveal_strlit("b");
        reveal_strlit("c");
        reveal_strlit("d");
        reveal_strlit("e");
        reveal_strlit("f");
    }
    text
}

/// Appends the lower-case hex text of `bytes` to `out`.
pub fn append_hex(out: &mut String, bytes: &[u8])
    ensures
        final(out)@ == old(out)@ + hex_string(bytes@),
{
    let mut i: usize = 0;
    while i < bytes.len()
        invariant
            i <= bytes.len(),
            out@ == old(out)@ + hex_string(bytes@.take(i as int)),
        decreases bytes.len() - i,
    {
        let b: u8 = bytes[i];
        out.append(hex_digit_text(b / 16));
        out.append(hex_digit_text(b % 16));
        i = i + 1;
    }
}

/// The lower-case hex text of `bytes`.
pub fn encode_hex(bytes: &[u8]) -> (text: String)
    ensures
        text@ == hex_string(bytes@),
        is_lower_hex_text(text@),
        text@.len() == 2 * bytes@.len(),
{
    let mut text = String::new();
    append_hex(&mut text, bytes);
    text
}

/// Appends the lowest `width` hex digits of `n` to `out`, in lower case and
/// most significant first.
pub fn append_hex_padded(out: &mut String, n: u128, width: usize)
    ensures
        final(out)@ == old(out)@ + hex_padded(n as nat, width as nat),
    decreases width,
{
    if width > 0 {
        append_hex_padded(out, n / 16, width - 1);
        out.append(hex_digit_text((n % 16) as u8));
    }
}

/// The value of the hex digit `c`, if it is one.
pub fn hex_value(c: char) -> (v: Option<u8>)
    ensures
        match v {
            Some(d) => hex_digit_value(c) == Some(d as int) && d < 16,
            None => hex_digit_value(c) is None,
        },
{
    if '0' <= c && c <= '9' {
        Some((c as u32 - '0' as u32) as u8)
    } else if 'a' <= c && c <= 'f' {
        Some((c as u32 - 'a' as u32 + 10) as u8)
    } else if 'A' <= c && c <= 'F' {
        Some((c as u32 - 'A' as u32 + 10) as u8)
    } else {
        None
    }
}

/// The bytes of the hex text `chars`, or `None` when it has an odd number of
/// characters or holds one that is not a hex digit.
pub fn decode_hex(chars: &[char]) -> (r: Option<Vec<u8>>)
    ensures
        match r {
            Some(bytes) => parse_hex(chars@) == Some(bytes@),
            None => parse_hex(chars@) is None,
        },
{
    if chars.len() % 2 != 0 {
        return None;
    }
    let mut bytes: Vec<u8> = Vec::new();
    let mut i: usize = 0;
    while i < chars.len()
        invariant
            chars.len() % 2 == 0,
            i % 2 == 0,
            i <= chars.len(),
            is_hex_text(chars@.take(i as int)),
            bytes@ == hex_bytes(chars@.take(i as int)),
        decreases chars.len() - i,
    {
        let hi = match hex_value(chars[i]) {
            Some(d) => d,
            None => {
                return None;
            },
        };
        let lo = match hex_value(chars[i + 1]) {
            Some(d) => d,
            None => {
                return None;
            },
        };
        bytes.push(16 * hi + lo);
        i = i + 2;
    }
    assert(chars@.take(i as int) =~= chars@);
    Some(bytes)
}

/// Hex text that this module writes holds lower-case digits only.
pub proof fn lemma_hex_string_is_lower(bytes: Seq<u8>)
    ensures
        is_lower_hex_text(hex_string(bytes)),
        is_hex_text(hex_string(bytes)),
        hex_string(bytes).len() == 2 * bytes.len(),
{
}

/// A digit that is written reads back as the value it was written for.
pub proof fn lemma_hex_digit(d: int)
    requires
        0 <= d < 16,
    ensures
        hex_digit_value(hex_digit(d)) == Some(d),
        is_lower_hex_digit(hex_digit(d)),
        lower_hex_char(hex_digit(d)) == hex_digit(d),
{
}

/// Powers of sixteen are positive and grow with the exponent, and the
/// twenty-fourth is two to the ninety-sixth.
pub proof fn lemma_pow16(k: nat)
    ensures
        pow16(k) >= 1,
        k <= 24 ==> pow16(k) <= 0x1_0000_0000_0000_0000_0000_0000,
        pow16(24) == 0x1_0000_0000_0000_0000_0000_0000,
{
    lemma_pow16_grows(0, k);
    if k <= 24 {
        lemma_pow16_grows(k, 24);
    }
    assert(pow16(6) == 0x100_0000) by {
        reveal_with_fuel(pow16, 7);
    }
    assert(pow16(12) == 0x1_0000_0000_0000) by {
        reveal_with_fuel(pow16, 7);
    }
    assert(pow16(18) == 0x100_0000_0000_0000_0000) by {
        reveal_with_fuel(pow16, 7);
    }
    assert(pow16(24) == 0x1_0000_0000_0000_0000_0000_0000) by {
        reveal_with_fuel(pow16, 7);
    }
}

proof fn lemma_pow16_grows(i: nat, j: nat)
    requires
        i <= j,
    ensures
        1 <= pow16(i) <= pow16(j),
    decreases j,
{
    if j > 0 {
        lemma_pow16_grows(if i < j { i } else { (j - 1) as nat }, (j - 1) as nat);
    }
}

/// The digits of a hex text spell a number below sixteen to the power of
/// its length.
pub proof fn lemma_hex_number_bound(s: Seq<char>)
    requires
        is_hex_text(s),
    ensures
        hex_number(s) < pow16(s.len()),
    decreases s.len(),
{
    if s.len() > 0 {
        lemma_hex_number_bound(s.drop_last());
    }
}

/// Padded hex text has the width asked for, holds lower-case digits only,
/// and spells the number it was written for when that number has no more
/// than `width` hex digits.
pub proof fn lemma_hex_padded(n: nat, width: nat)
    ensures
        hex_padded(n, width).len() == width,
        is_lower_hex_text(hex_padded(n, width)),
        is_hex_text(hex_padded(n, width)),
        n < pow16(width) ==> hex_number(hex_padded(n, width)) == n,
    decreases width,
{
    if width > 0 {
        lemma_hex_padded(n / 16, (width - 1) as nat);
        assert(hex_padded(n, width).drop_last() =~= hex_padded(n / 16, (width - 1) as nat));
    }
}

/// Writing the number of a hex text with as many digits as the text has
/// gives the text back in lower case.
pub proof fn lemma_hex_padded_normalizes(s: Seq<char>)
    requires
        is_hex_text(s),
    ensures
        hex_padded(hex_number(s), s.len()) == lower_hex_text(s),
    decreases s.len(),
{
    if s.len() > 0 {
        lemma_hex_padded_normalizes(s.drop_last());
    }
}

/// Reading the hex text of `bytes` gives `bytes` back.
pub proof fn lemma_hex_roundtrip(bytes: Seq<u8>)
    ensures
        parse_hex(hex_string(bytes)) == Some(bytes),
{
}

/// Writing the bytes of a hex text gives the text back in lower case.
pub proof fn lemma_hex_normalizes(s: Seq<char>)
    requires
        parse_hex(s) is Some,
    ensures
        hex_string(parse_hex(s)->0) == lower_hex_text(s),
{
}

} // verus!
