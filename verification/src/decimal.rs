//! Decimal text of unsigned integers: no sign, no separators, and no leading
//! zeros when written.

use crate::error::CodecError;
use vstd::prelude::*;

verus! {

/// The decimal digit for a value below ten.
pub open spec fn decimal_digit(d: int) -> char {
    seq!['0', '1', '2', '3', '4', '5', '6', '7', '8', '9'][d]
}

/// `c` is one of the digits `0` to `9`.
pub open spec fn is_decimal_digit(c: char) -> bool {
    '0' <= c <= '9'
}

/// The value of the decimal digit `c`.
pub open spec fn decimal_digit_value(c: char) -> int {
    c as int - '0' as int
}

/// The decimal text of `n`, without leading zeros.
pub open spec fn decimal_string(n: nat) -> Seq<char>
    decreases n,
{
    if n < 10 {
        seq![decimal_digit(n as int)]
    } else {
        decimal_string(n / 10).push(decimal_digit((n % 10) as int))
    }
}

/// `s` is a decimal number: at least one character, and digits only.
pub open spec fn is_decimal_text(s: Seq<char>) -> bool {
    &&& s.len() > 0
    &&& forall|i: int| 0 <= i < s.len() ==> is_decimal_digit(#[trigger] s[i])
}

/// The number that the digits of `s` spell.
pub open spec fn decimal_value(s: Seq<char>) -> nat
    decreases s.len(),
{
    if s.len() == 0 {
        0
    } else {
        (decimal_value(s.drop_last()) * 10 + decimal_digit_value(s.last())) as nat
    }
}

/// The one-character text of the decimal digit for `d`.
fn decimal_digit_text(d: u8) -> (text: &'static str)
    requires
        d < 10,
    ensures
        text@ == seq![decimal_digit(d as int)],
{
    let text = match d {
        0 => "0",
        1 => "1",
        2 => "2",
        3 => "3",
        4 => "4",
        5 => "5",
        6 => "6",
        7 => "7",
        8 => "8",
        _ => "9",
    };
    proof {
        reveal_strlit("0");
        reveal_strlit("1");
        reveal_strlit("2");
        reveal_strlit("3");
        reveal_strlit("4");
        reveal_strlit("5");
        reveal_strlit("6");
        reveal_strlit("7");
        reveal_strlit("8");
        reveal_strlit("9");
    }
    text
}

/// Appends the decimal text of `n` to `out`.
pub fn append_decimal(out: &mut String, n: u128)
    ensures
        final(out)@ == old(out)@ + decimal_string(n as nat),
    decreases n,
{
    if n >= 10 {
        append_decimal(out, n / 10);
    }
    out.append(decimal_digit_text((n % 10) as u8));
}

/// The decimal text of `n`.
pub fn format_decimal(n: u128) -> (text: String)
    ensures
        text@ == decimal_string(n as nat),
{
    let mut text = String::new();
    append_decimal(&mut text, n);
    text
}

/// Reads `chars` as a decimal number.
///
/// Fails with `ParseArc` when `chars` is empty or holds a character that is
/// not a digit, and with `Overflow` when it is a decimal number that does
/// not fit in 128 bits.
pub fn parse_decimal(chars: &[char]) -> (r: Result<u128, CodecError>)
    ensures
        match r {
            Ok(n) => is_decimal_text(chars@) && decimal_value(chars@) == n,
            Err(e) => if is_decimal_text(chars@) {
                e == CodecError::Overflow && decimal_value(chars@) > u128::MAX
            } else {
                e == CodecError::ParseArc
            },
        },
{
    if chars.len() == 0 {
        return Err(CodecError::ParseArc);
    }
    let mut value: u128 = 0;
    let mut fits: bool = true;
    let mut i: usize = 0;
    while i < chars.len()
        invariant
            i <= chars.len(),
            forall|j: int| 0 <= j < i ==> is_decimal_digit(#[trigger] chars@[j]),
            fits ==> decimal_value(chars@.take(i as int)) == value,
            !fits ==> decimal_value(chars@.take(i as int)) > u128::MAX,
        decreases chars.len() - i,
    {
        let c: char = chars[i];
        if !('0' <= c && c <= '9') {
            return Err(CodecError::ParseArc);
        }
        let d: u128 = (c as u32 - '0' as u32) as u128;
        assert(chars@.take(i as int + 1).drop_last() =~= chars@.take(i as int));
        if fits {
            if value > (u128::MAX - d) / 10 {
                fits = false;
            } else {
                value = value * 10 + d;
            }
        }
        i = i + 1;
    }
    assert(chars@.take(i as int) =~= chars@);
    if fits {
        Ok(value)
    } else {
        Err(CodecError::Overflow)
    }
}

/// The decimal text of a number is a decimal number that spells it, and it
/// holds no `.`.
pub proof fn lemma_decimal_string(n: nat)
    ensures
        is_decimal_text(decimal_string(n)),
        decimal_value(decimal_string(n)) == n,
        !decimal_string(n).contains('.'),
    decreases n,
{
    let s = decimal_string(n);
    if n < 10 {
        assert(decimal_value(s.drop_last()) == 0);
    } else {
        lemma_decimal_string(n / 10);
        assert(s.drop_last() =~= decimal_string(n / 10));
    }
}

} // verus!
