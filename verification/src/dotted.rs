//! Dotted-decimal text of object identifiers: decimal arcs with a `.` between
//! them.

use crate::decimal::{
    append_decimal, decimal_string, decimal_value, is_decimal_text, lemma_decimal_string,
    parse_decimal,
};
use crate::error::CodecError;
use crate::oid::{as_arcs, Oid};
use vstd::prelude::*;
use vstd::slice::slice_subrange;

verus! {

/// The index of the first `.` at or after `start`, or the length of `s` when
/// there is none: where the arc that begins at `start` ends.
pub open spec fn arc_end(s: Seq<char>, start: int) -> int
    decreases s.len() - start,
{
    if start < 0 || start >= s.len() {
        s.len() as int
    } else if s[start] == '.' {
        start
    } else {
        arc_end(s, start + 1)
    }
}

/// The pieces that the dots cut `s` into from `start` on. There is always at
/// least one piece, and a piece may be empty.
pub open spec fn dotted_parts(s: Seq<char>, start: int) -> Seq<Seq<char>>
    decreases s.len() - start,
    via dotted_parts_decreases
{
    let end = arc_end(s, start);
    if end < s.len() {
        seq![s.subrange(start, end)] + dotted_parts(s, end + 1)
    } else {
        seq![s.subrange(start, s.len() as int)]
    }
}

#[via_fn]
proof fn dotted_parts_decreases(s: Seq<char>, start: int) {
    lemma_arc_end_bounds(s, start);
}

/// A piece ends at or after the place where it begins, and no later than
/// the text does.
proof fn lemma_arc_end_bounds(s: Seq<char>, start: int)
    ensures
        arc_end(s, start) <= s.len(),
        0 <= start <= s.len() ==> start <= arc_end(s, start),
    decreases s.len() - start,
{
    if 0 <= start < s.len() && s[start] != '.' {
        lemma_arc_end_bounds(s, start + 1);
    }
}

/// `s` is a dotted-decimal identifier: at least two pieces, each of them a
/// decimal number.
pub open spec fn is_dotted_text(s: Seq<char>) -> bool {
    let parts = dotted_parts(s, 0);
    &&& parts.len() >= 2
    &&& forall|i: int| 0 <= i < parts.len() ==> is_decimal_text(#[trigger] parts[i])
}

/// The numbers that the pieces of `s` spell.
pub open spec fn dotted_values(s: Seq<char>) -> Seq<nat> {
    let parts = dotted_parts(s, 0);
    Seq::new(parts.len(), |i: int| decimal_value(parts[i]))
}

/// The identifier that the dotted-decimal text `s` spells.
///
/// `ParseArc` when `s` is not a dotted-decimal identifier; otherwise
/// `Overflow` when one of its arcs does not fit in 128 bits.
pub open spec fn arcs_of_dotted(s: Seq<char>) -> Result<Seq<u128>, CodecError> {
    let values = dotted_values(s);
    if !is_dotted_text(s) {
        Err(CodecError::ParseArc)
    } else if exists|i: int| 0 <= i < values.len() && values[i] > u128::MAX {
        Err(CodecError::Overflow)
    } else {
        Ok(as_arcs(values))
    }
}

/// The dotted-decimal text of `arcs`.
pub open spec fn dotted_string(arcs: Seq<u128>) -> Seq<char>
    decreases arcs.len(),
{
    if arcs.len() == 0 {
        Seq::empty()
    } else if arcs.len() == 1 {
        decimal_string(arcs[0] as nat)
    } else {
        decimal_string(arcs[0] as nat) + seq!['.'] + dotted_string(arcs.skip(1))
    }
}

/// Appends the dotted-decimal text of `arcs` to `out`.
pub fn append_dotted(out: &mut String, arcs: &[u128])
    ensures
        final(out)@ == old(out)@ + dotted_string(arcs@),
{
    if arcs.len() == 0 {
        return ;
    }
    let ghost mut head: Seq<char> = old(out)@;
    append_decimal(out, arcs[0]);
    assert(arcs@.skip(0) =~= arcs@);
    let mut i: usize = 1;
    while i < arcs.len()
        invariant
            1 <= i <= arcs.len(),
            out@ == head + decimal_string(arcs@[i - 1] as nat),
            head + dotted_string(arcs@.skip(i - 1)) == old(out)@ + dotted_string(arcs@),
        decreases arcs.len() - i,
    {
        proof {
            assert(arcs@.skip(i - 1).skip(1) =~= arcs@.skip(i as int));
            head = out@ + seq!['.'];
            reveal_strlit(".");
        }
        out.append(".");
        append_decimal(out, arcs[i]);
        i = i + 1;
    }
}

/// The dotted-decimal text of `oid`.
pub fn format_dotted(oid: &Oid) -> (text: String)
    ensures
        text@ == dotted_string(oid@),
{
    let mut text = String::new();
    append_dotted(&mut text, oid.arcs().as_slice());
    text
}

/// Reads `chars` as a dotted-decimal identifier.
pub fn parse_dotted(chars: &[char]) -> (r: Result<Oid, CodecError>)
    ensures
        match r {
            Ok(oid) => arcs_of_dotted(chars@) == Ok::<Seq<u128>, CodecError>(oid@),
            Err(e) => arcs_of_dotted(chars@) == Err::<Seq<u128>, CodecError>(e),
        },
{
    let len = chars.len();
    let ghost parts = dotted_parts(chars@, 0);
    let ghost values = dotted_values(chars@);
    let ghost mut done: int = 0;
    let ghost mut too_big: int = 0;
    let mut arcs: Vec<u128> = Vec::new();
    let mut overflow: bool = false;
    let mut several: bool = false;
    let mut more: bool = true;
    let mut start: usize = 0;
    while more
        invariant
            len == chars@.len(),
            parts == dotted_parts(chars@, 0),
            values == dotted_values(chars@),
            0 <= done <= parts.len(),
            forall|i: int| 0 <= i < done ==> is_decimal_text(#[trigger] parts[i]),
            more ==> start <= len && parts =~= parts.take(done) + dotted_parts(
                chars@,
                start as int,
            ),
            more ==> (several <==> done >= 1),
            !more ==> done == parts.len() && (several <==> done >= 2),
            !overflow ==> arcs@.len() == done && forall|i: int|
                0 <= i < done ==> values[i] == #[trigger] arcs@[i],
            overflow ==> 0 <= too_big < done && values[too_big] > u128::MAX,
        decreases (if more { len - start + 1 } else { 0 }),
    {
        let mut end: usize = start;
        while end < len && chars[end] != '.'
            invariant
                len == chars@.len(),
                start <= end <= len,
                arc_end(chars@, start as int) == arc_end(chars@, end as int),
            decreases len - end,
        {
            end = end + 1;
        }
        let part = slice_subrange(chars, start, end);
        assert(parts[done] == dotted_parts(chars@, start as int)[0]);
        match parse_decimal(part) {
            Ok(arc) => {
                if !overflow {
                    arcs.push(arc);
                }
            },
            Err(CodecError::Overflow) => {
                overflow = true;
                proof {
                    too_big = done;
                }
            },
            Err(_) => {
                return Err(CodecError::ParseArc);
            },
        }
        proof {
            done = done + 1;
        }
        if end < len {
            several = true;
            start = end + 1;
        } else {
            more = false;
        }
    }
    if !several {
        return Err(CodecError::ParseArc);
    }
    if overflow {
        return Err(CodecError::Overflow);
    }
    proof {
        assert forall|i: int| 0 <= i < values.len() implies values[i] <= u128::MAX by {
            assert(values[i] == arcs@[i]);
        }
        assert(arcs@ =~= as_arcs(values));
    }
    match Oid::new(arcs) {
        Some(oid) => Ok(oid),
        None => Err(CodecError::ParseArc),
    }
}

/// Where a piece ends: at the first `.` after characters that are no dots,
/// or at the end of the text.
pub proof fn lemma_arc_end(s: Seq<char>, start: int, end: int)
    requires
        0 <= start <= end <= s.len(),
        forall|i: int| start <= i < end ==> s[i] != '.',
        end < s.len() ==> s[end] == '.',
    ensures
        arc_end(s, start) == end,
    decreases end - start,
{
    if start < end {
        lemma_arc_end(s, start + 1, end);
    }
}

/// Behind any characters `before`, the pieces of the dotted-decimal text of
/// `arcs` are the decimal texts of the arcs.
pub proof fn lemma_parts_of_dotted_string(before: Seq<char>, arcs: Seq<u128>)
    requires
        arcs.len() >= 1,
    ensures
        dotted_parts(before + dotted_string(arcs), before.len() as int) == Seq::new(
            arcs.len(),
            |i: int| decimal_string(arcs[i] as nat),
        ),
    decreases arcs.len(),
{
    let s = before + dotted_string(arcs);
    let start = before.len() as int;
    let first = decimal_string(arcs[0] as nat);
    let end = start + first.len();
    lemma_decimal_string(arcs[0] as nat);
    if arcs.len() == 1 {
        lemma_arc_end(s, start, end);
        assert(s.subrange(start, s.len() as int) =~= first);
    } else {
        let rest = arcs.skip(1);
        lemma_arc_end(s, start, end);
        lemma_parts_of_dotted_string(before + first + seq!['.'], rest);
        assert(before + first + seq!['.'] + dotted_string(rest) =~= s);
        assert(s.subrange(start, end) =~= first);
    }
}

/// One more arc at the end adds a dot and the decimal text of that arc.
pub proof fn lemma_dotted_string_push(arcs: Seq<u128>, last: u128)
    requires
        arcs.len() >= 1,
    ensures
        dotted_string(arcs.push(last)) == dotted_string(arcs) + seq!['.'] + decimal_string(
            last as nat,
        ),
    decreases arcs.len(),
{
    let all = arcs.push(last);
    if arcs.len() == 1 {
        assert(all.skip(1) =~= seq![last]);
        assert(dotted_string(seq![last]) == decimal_string(last as nat));
    } else {
        lemma_dotted_string_push(arcs.skip(1), last);
        assert(all.skip(1) =~= arcs.skip(1).push(last));
    }
}

/// The dotted-decimal text of an identifier reads back as that identifier.
pub proof fn lemma_parse_format(arcs: Seq<u128>)
    requires
        arcs.len() >= 2,
    ensures
        arcs_of_dotted(dotted_string(arcs)) == Ok::<Seq<u128>, CodecError>(arcs),
{
    let s = dotted_string(arcs);
    lemma_parts_of_dotted_string(Seq::empty(), arcs);
    let parts = dotted_parts(s, 0);
    let values = dotted_values(s);
    assert forall|i: int| 0 <= i < parts.len() implies is_decimal_text(#[trigger] parts[i])
        && values[i] == arcs[i] by {
        lemma_decimal_string(arcs[i] as nat);
    }
    assert(as_arcs(values) =~= arcs);
}

} // verus!
