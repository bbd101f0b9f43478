//! Base-128 variable-length integers: seven value bits per byte, most
//! significant group first, with the high bit marking every byte but the last.

use crate::error::CodecError;
use vstd::prelude::*;

verus! {

/// The continuation bytes that carry `a`: one byte per base-128 digit of `a`,
/// most significant first, each with its high bit set. Empty for zero.
pub open spec fn continuation_bytes(a: nat) -> Seq<u8>
    decreases a,
{
    if a == 0 {
        Seq::empty()
    } else {
        continuation_bytes(a / 128).push((128 + a % 128) as u8)
    }
}

/// The encoding of the arc `a`: the continuation bytes of `a / 128`, then the
/// lowest seven bits of `a` in a byte whose high bit is clear.
pub open spec fn varint_encoding(a: nat) -> Seq<u8> {
    continuation_bytes(a / 128).push((a % 128) as u8)
}

/// The number that the low seven bits of the bytes of `s` spell in base 128,
/// most significant byte first.
pub open spec fn base128_value(s: Seq<u8>) -> nat
    decreases s.len(),
{
    if s.len() == 0 {
        0
    } else {
        base128_value(s.drop_last()) * 128 + (s.last() % 128) as nat
    }
}

/// One past the index of the first byte at or after `start` whose high bit is
/// clear: where the arc that begins at `start` ends. `None` when every byte
/// from `start` on has its high bit set, or when there is no byte at `start`.
pub open spec fn varint_end(s: Seq<u8>, start: int) -> Option<int>
    decreases s.len() - start,
{
    if start < 0 || start >= s.len() {
        None
    } else if s[start] < 128 {
        Some(start + 1)
    } else {
        varint_end(s, start + 1)
    }
}

/// 128 to the power `k`.
pub open spec fn pow128(k: nat) -> nat
    decreases k,
{
    if k == 0 {
        1
    } else {
        128 * pow128((k - 1) as nat)
    }
}

/// `s` is one complete arc: its last byte has the high bit clear and every
/// byte before it has the high bit set.
pub open spec fn is_varint(s: Seq<u8>) -> bool {
    &&& s.len() >= 1
    &&& s.last() < 128
    &&& forall|i: int| 0 <= i < s.len() - 1 ==> s[i] >= 128
}

/// `s` is one complete arc in its shortest form: it does not begin with a
/// continuation byte that carries no value bits.
pub open spec fn is_minimal_varint(s: Seq<u8>) -> bool {
    is_varint(s) && s[0] != 128
}

/// Appends the continuation bytes of `a` to `out`.
fn push_continuation_bytes(out: &mut Vec<u8>, a: u128)
    ensures
        final(out)@ == old(out)@ + continuation_bytes(a as nat),
    decreases a,
{
    if a != 0 {
        push_continuation_bytes(out, a / 128);
        let group: u8 = (a % 128) as u8;
        out.push(128 + group);
    }
}

/// Appends the encoding of `arc` to `out`.
pub fn append_varint(out: &mut Vec<u8>, arc: u128)
    ensures
        final(out)@ == old(out)@ + varint_encoding(arc as nat),
{
    push_continuation_bytes(out, arc / 128);
    out.push((arc % 128) as u8);
}

/// The encoding of `arc` in base 128.
pub fn encode_varint(arc: u128) -> (bytes: Vec<u8>)
    ensures
        bytes@ == varint_encoding(arc as nat),
        is_minimal_varint(bytes@),
        base128_value(bytes@) == arc,
        bytes@.len() <= 19,
{
    let mut bytes: Vec<u8> = Vec::new();
    append_varint(&mut bytes, arc);
    proof {
        lemma_encoding_is_minimal(arc as nat);
        lemma_encoding_roundtrip(arc as nat);
        lemma_pow128();
        lemma_encoding_len(arc as nat, 19);
    }
    bytes
}

/// Reads the arc that begins at `start`: its value and the index one past its
/// last byte.
///
/// Fails with `Truncated` when no byte from `start` on has its high bit
/// clear, and with `Overflow` when the arc is complete but its value does not
/// fit in 128 bits.
pub fn decode_varint(bytes: &[u8], start: usize) -> (r: Result<(u128, usize), CodecError>)
    ensures
        match r {
            Ok((arc, end)) => {
                &&& varint_end(bytes@, start as int) == Some(end as int)
                &&& base128_value(bytes@.subrange(start as int, end as int)) == arc
            },
            Err(e) => match varint_end(bytes@, start as int) {
                None => e == CodecError::Truncated,
                Some(end) => {
                    &&& e == CodecError::Overflow
                    &&& base128_value(bytes@.subrange(start as int, end)) > u128::MAX
                },
            },
        },
{
    if start >= bytes.len() {
        return Err(CodecError::Truncated);
    }
    let mut i: usize = start;
    let mut acc: u128 = 0;
    let mut fits: bool = true;
    while i < bytes.len()
        invariant
            start <= i <= bytes.len(),
            varint_end(bytes@, start as int) == varint_end(bytes@, i as int),
            fits ==> base128_value(bytes@.subrange(start as int, i as int)) == acc,
            !fits ==> base128_value(bytes@.subrange(start as int, i as int)) > u128::MAX,
        decreases bytes.len() - i,
    {
        let b: u8 = bytes[i];
        assert(bytes@.subrange(start as int, i as int + 1).drop_last() =~= bytes@.subrange(
            start as int,
            i as int,
        ));
        if fits {
            if acc > u128::MAX / 128 {
                fits = false;
            } else {
                acc = acc * 128 + (b % 128) as u128;
            }
        }
        i = i + 1;
        if b < 128 {
            if fits {
                return Ok((acc, i));
            } else {
                return Err(CodecError::Overflow);
            }
        }
    }
    Err(CodecError::Truncated)
}

/// Where an arc ends: after the first byte from `start` on whose high bit is
/// clear, and nowhere when there is no such byte.
pub proof fn lemma_varint_end(s: Seq<u8>, start: int)
    requires
        0 <= start,
    ensures
        match varint_end(s, start) {
            Some(end) => {
                &&& start < end <= s.len()
                &&& is_varint(s.subrange(start, end))
            },
            None => forall|i: int| start <= i < s.len() ==> s[i] >= 128,
        },
    decreases s.len() - start,
{
    if start < s.len() && s[start] >= 128 {
        lemma_varint_end(s, start + 1);
        match varint_end(s, start) {
            Some(end) => {
                let arc = s.subrange(start, end);
                let rest = s.subrange(start + 1, end);
                assert forall|i: int| 0 <= i < arc.len() - 1 implies arc[i] >= 128 by {
                    if i > 0 {
                        assert(arc[i] == rest[i - 1]);
                    }
                }
            },
            None => {},
        }
    }
}

/// An arc that lies in `s` from `start` to `end` is the arc that begins at
/// `start`.
pub proof fn lemma_varint_end_of_arc(s: Seq<u8>, start: int, end: int)
    requires
        0 <= start < end <= s.len(),
        is_varint(s.subrange(start, end)),
    ensures
        varint_end(s, start) == Some(end),
    decreases end - start,
{
    let arc = s.subrange(start, end);
    assert(s[start] == arc[0]);
    if end - start > 1 {
        let rest = s.subrange(start + 1, end);
        assert forall|i: int| 0 <= i < rest.len() - 1 implies rest[i] >= 128 by {
            assert(rest[i] == arc[i + 1]);
        }
        lemma_varint_end_of_arc(s, start + 1, end);
    }
}

/// Every byte of `continuation_bytes(a)` has its high bit set, the first one
/// carries a digit that is not zero, and together they spell `a`.
pub proof fn lemma_continuation_bytes(a: nat)
    ensures
        forall|i: int| 0 <= i < continuation_bytes(a).len() ==> continuation_bytes(a)[i] >= 128,
        a > 0 ==> continuation_bytes(a).len() > 0 && continuation_bytes(a)[0] != 128,
        a == 0 ==> continuation_bytes(a).len() == 0,
        base128_value(continuation_bytes(a)) == a,
    decreases a,
{
    if a > 0 {
        lemma_continuation_bytes(a / 128);
        assert(continuation_bytes(a).drop_last() =~= continuation_bytes(a / 128));
    }
}

/// The encoding of an arc is one complete arc in its shortest form: only the
/// last byte has the high bit clear, and the first byte is never `0x80`.
pub proof fn lemma_encoding_is_minimal(a: nat)
    ensures
        is_minimal_varint(varint_encoding(a)),
        a < 128 ==> varint_encoding(a) == seq![a as u8],
        a >= 128 ==> varint_encoding(a).len() >= 2,
{
    lemma_continuation_bytes(a / 128);
}

/// Reading undoes writing: the encoding of an arc is one arc from its first
/// byte to its last, and its bytes spell the arc that was encoded.
pub proof fn lemma_encoding_roundtrip(a: nat)
    ensures
        varint_end(varint_encoding(a), 0) == Some(varint_encoding(a).len() as int),
        base128_value(varint_encoding(a)) == a,
{
    lemma_continuation_bytes(a / 128);
    let enc = varint_encoding(a);
    assert(enc.drop_last() =~= continuation_bytes(a / 128));
    lemma_varint_end_of_arc(enc, 0, enc.len() as int);
}

/// A number below 128 to the power `k` has at most `k` continuation bytes.
proof fn lemma_continuation_len(a: nat, k: nat)
    requires
        a < pow128(k),
    ensures
        continuation_bytes(a).len() <= k,
    decreases k,
{
    if a > 0 {
        lemma_continuation_len(a / 128, (k - 1) as nat);
    }
}

/// An arc below 128 to the power `k` is encoded in at most `k` bytes.
pub proof fn lemma_encoding_len(a: nat, k: nat)
    requires
        k >= 1,
        a < pow128(k),
    ensures
        1 <= varint_encoding(a).len() <= k,
{
    lemma_continuation_len(a / 128, (k - 1) as nat);
}

/// Every number of 128 bits is below 128 to the power 19.
pub proof fn lemma_pow128()
    ensures
        pow128(19) > u128::MAX,
{
    assert(pow128(4) == 0x1000_0000) by {
        reveal_with_fuel(pow128, 5);
    }
    assert(pow128(8) == 0x100_0000_0000_0000) by {
        reveal_with_fuel(pow128, 5);
    }
    assert(pow128(12) == 0x10_0000_0000_0000_0000_0000) by {
        reveal_with_fuel(pow128, 5);
    }
    assert(pow128(16) == 0x1_0000_0000_0000_0000_0000_0000_0000) by {
        reveal_with_fuel(pow128, 5);
    }
    assert(pow128(19) == 0x20_0000_0000_0000_0000_0000_0000_0000_0000) by {
        reveal_with_fuel(pow128, 4);
    }
}

/// Continuation bytes whose first digit is not zero are the continuation
/// bytes of the number they spell, and that number is not zero.
proof fn lemma_continuation_roundtrip(c: Seq<u8>)
    requires
        forall|i: int| 0 <= i < c.len() ==> c[i] >= 128,
        c.len() > 0 ==> c[0] != 128,
    ensures
        continuation_bytes(base128_value(c)) == c,
        c.len() > 0 ==> base128_value(c) > 0,
    decreases c.len(),
{
    if c.len() > 0 {
        lemma_continuation_roundtrip(c.drop_last());
    }
}

/// An arc in its shortest form is the encoding of its value: no two such
/// arcs spell the same number.
pub proof fn lemma_minimal_varint_is_encoding(s: Seq<u8>)
    requires
        is_minimal_varint(s),
    ensures
        varint_encoding(base128_value(s)) == s,
{
    lemma_continuation_roundtrip(s.drop_last());
}

} // verus!
