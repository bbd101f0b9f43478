//! Object identifiers and their binary form: one byte that folds the first
//! two arcs, then one base-128 integer for each arc after them.

use crate::error::CodecError;
use crate::frame::{
    frame, framed, lemma_frame_roundtrip, lemma_unframe_roundtrip, unframe, unframed,
};
use crate::varint::{
    append_varint, base128_value, decode_varint, lemma_encoding_is_minimal, lemma_encoding_len,
    lemma_encoding_roundtrip, lemma_minimal_varint_is_encoding, lemma_pow128, lemma_varint_end,
    lemma_varint_end_of_arc, varint_encoding, varint_end,
};
use vstd::prelude::*;

verus! {

/// The encodings of `arcs`, one after the other.
pub open spec fn arcs_encoding(arcs: Seq<u128>) -> Seq<u8>
    decreases arcs.len(),
{
    if arcs.len() == 0 {
        Seq::empty()
    } else {
        varint_encoding(arcs[0] as nat) + arcs_encoding(arcs.skip(1))
    }
}

/// What the first payload byte has to hold: forty times the first arc plus
/// the second arc.
pub open spec fn first_octet(arcs: Seq<u128>) -> int {
    arcs[0] * 40 + arcs[1]
}

/// The payload of the identifier `arcs`, or `FirstArcRange` when its first two
/// arcs do not fold into one byte.
pub open spec fn payload_of(arcs: Seq<u128>) -> Result<Seq<u8>, CodecError> {
    if first_octet(arcs) > 255 {
        Err(CodecError::FirstArcRange)
    } else {
        Ok(seq![first_octet(arcs) as u8] + arcs_encoding(arcs.skip(2)))
    }
}

/// The length-prefixed blob of the identifier `arcs`.
pub open spec fn blob_of(arcs: Seq<u128>) -> Result<Seq<u8>, CodecError> {
    match payload_of(arcs) {
        Ok(payload) => framed(payload),
        Err(e) => Err(e),
    }
}

/// The values of the complete arcs that lie in `s` from `start` on, in order.
/// Bytes after the last complete arc are left out.
pub open spec fn varint_values(s: Seq<u8>, start: int) -> Seq<nat>
    decreases s.len() - start,
    via varint_values_decreases
{
    match varint_end(s, start) {
        Some(end) => seq![base128_value(s.subrange(start, end))] + varint_values(s, end),
        None => Seq::empty(),
    }
}

#[via_fn]
proof fn varint_values_decreases(s: Seq<u8>, start: int) {
    if start >= 0 {
        lemma_varint_end(s, start);
    }
}

/// `values` as arcs of 128 bits.
pub open spec fn as_arcs(values: Seq<nat>) -> Seq<u128> {
    Seq::new(values.len(), |i: int| values[i] as u128)
}

/// The identifier that `payload` holds.
///
/// `Truncated` when the payload is empty or ends inside an arc; otherwise
/// `Overflow` when one of its arcs does not fit in 128 bits; otherwise the
/// two arcs folded into the first byte, then the arcs after it.
pub open spec fn arcs_of_payload(payload: Seq<u8>) -> Result<Seq<u128>, CodecError> {
    let values = varint_values(payload, 1);
    if payload.len() == 0 || (payload.len() >= 2 && payload.last() >= 128) {
        Err(CodecError::Truncated)
    } else if exists|i: int| 0 <= i < values.len() && values[i] > u128::MAX {
        Err(CodecError::Overflow)
    } else {
        Ok(seq![(payload[0] / 40) as u128, (payload[0] % 40) as u128] + as_arcs(values))
    }
}

/// The identifier that the length-prefixed `blob` holds.
pub open spec fn arcs_of_blob(blob: Seq<u8>) -> Result<Seq<u128>, CodecError> {
    match unframed(blob) {
        Ok(payload) => arcs_of_payload(payload),
        Err(e) => Err(e),
    }
}

/// Every arc in `payload` is in its shortest form: the byte `0x80` never
/// begins an arc, so it stands only behind a byte whose high bit is set, and
/// never right behind the first byte.
pub open spec fn is_minimal_payload(payload: Seq<u8>) -> bool {
    forall|i: int|
        1 <= i < payload.len() && #[trigger] payload[i] == 128 ==> i >= 2 && payload[i - 1] >= 128
}

/// An object identifier: a sequence of at least two arcs, each of which fits
/// in 128 bits.
#[derive(Debug, PartialEq, Eq)]
pub struct Oid {
    arcs: Vec<u128>,
}

impl View for Oid {
    type V = Seq<u128>;

    closed spec fn view(&self) -> Seq<u128> {
        self.arcs@
    }
}

impl Oid {
    #[verifier::type_invariant]
    spec fn has_two_arcs(&self) -> bool {
        self.arcs@.len() >= 2
    }

    /// The identifier with the given arcs, if there are at least two.
    pub fn new(arcs: Vec<u128>) -> (r: Option<Oid>)
        ensures
            match r {
                Some(oid) => arcs@.len() >= 2 && oid@ == arcs@,
                None => arcs@.len() < 2,
            },
    {
        if arcs.len() >= 2 {
            Some(Oid { arcs })
        } else {
            None
        }
    }

    /// The arcs, first to last.
    pub fn arcs(&self) -> (arcs: &Vec<u128>)
        ensures
            arcs@ == self@,
            arcs@.len() >= 2,
    {
        proof {
            use_type_invariant(self);
        }
        &self.arcs
    }

    /// The last arc.
    pub fn last_arc(&self) -> (arc: u128)
        ensures
            self@.len() >= 2,
            arc == self@.last(),
    {
        proof {
            use_type_invariant(self);
        }
        self.arcs[self.arcs.len() - 1]
    }

    /// The payload: the first two arcs folded into one byte, then the
    /// encoding of each arc after them.
    pub fn to_payload(&self) -> (r: Result<Vec<u8>, CodecError>)
        ensures
            match r {
                Ok(payload) => payload_of(self@) == Ok::<Seq<u8>, CodecError>(payload@),
                Err(e) => payload_of(self@) == Err::<Seq<u8>, CodecError>(e),
            },
    {
        proof {
            use_type_invariant(self);
        }
        let first: u128 = self.arcs[0];
        let second: u128 = self.arcs[1];
        if first > 6 || second > 255 - first * 40 {
            return Err(CodecError::FirstArcRange);
        }
        let mut payload: Vec<u8> = Vec::new();
        payload.push((first * 40 + second) as u8);
        let mut i: usize = 2;
        while i < self.arcs.len()
            invariant
                2 <= i <= self.arcs@.len(),
                payload@ + arcs_encoding(self.arcs@.skip(i as int)) == seq![
                    first_octet(self.arcs@) as u8,
                ] + arcs_encoding(self.arcs@.skip(2)),
            decreases self.arcs.len() - i,
        {
            append_varint(&mut payload, self.arcs[i]);
            assert(self.arcs@.skip(i as int).skip(1) =~= self.arcs@.skip(i as int + 1));
            i = i + 1;
        }
        Ok(payload)
    }

    /// The length-prefixed blob: the payload behind the byte that counts it.
    pub fn encode(&self) -> (r: Result<Vec<u8>, CodecError>)
        ensures
            match r {
                Ok(blob) => blob_of(self@) == Ok::<Seq<u8>, CodecError>(blob@),
                Err(e) => blob_of(self@) == Err::<Seq<u8>, CodecError>(e),
            },
    {
        match self.to_payload() {
            Ok(payload) => frame(payload.as_slice()),
            Err(e) => Err(e),
        }
    }

    /// Reads the identifier that `payload` holds.
    pub fn from_payload(payload: &[u8]) -> (r: Result<Oid, CodecError>)
        ensures
            match r {
                Ok(oid) => arcs_of_payload(payload@) == Ok::<Seq<u128>, CodecError>(oid@),
                Err(e) => arcs_of_payload(payload@) == Err::<Seq<u128>, CodecError>(e),
            },
    {
        let len = payload.len();
        if len == 0 || (len >= 2 && payload[len - 1] >= 128) {
            return Err(CodecError::Truncated);
        }
        let folded: u8 = payload[0];
        let mut arcs: Vec<u128> = Vec::new();
        arcs.push((folded / 40) as u128);
        arcs.push((folded % 40) as u128);
        let ghost values = varint_values(payload@, 1);
        let mut pos: usize = 1;
        while pos < len
            invariant
                len == payload@.len(),
                1 <= pos <= len,
                len == 1 || payload@.last() < 128,
                values == varint_values(payload@, 1),
                arcs@.len() >= 2,
                arcs@[0] == (folded / 40) as u128,
                arcs@[1] == (folded % 40) as u128,
                values.len() >= arcs@.len() - 2,
                forall|i: int| 0 <= i < arcs@.len() - 2 ==> values[i] == arcs@[i + 2],
                values =~= values.take(arcs@.len() - 2) + varint_values(payload@, pos as int),
            decreases len - pos,
        {
            proof {
                lemma_varint_end(payload@, pos as int);
            }
            match decode_varint(payload, pos) {
                Ok((arc, end)) => {
                    arcs.push(arc);
                    pos = end;
                },
                Err(e) => {
                    assert(values[arcs@.len() - 2] > u128::MAX);
                    return Err(e);
                },
            }
        }
        assert(arcs@ =~= seq![(folded / 40) as u128, (folded % 40) as u128] + as_arcs(values));
        Ok(Oid { arcs })
    }

    /// Reads the identifier that the length-prefixed `blob` holds.
    pub fn decode(blob: &[u8]) -> (r: Result<Oid, CodecError>)
        ensures
            match r {
                Ok(oid) => arcs_of_blob(blob@) == Ok::<Seq<u128>, CodecError>(oid@),
                Err(e) => arcs_of_blob(blob@) == Err::<Seq<u128>, CodecError>(e),
            },
    {
        match unframe(blob) {
            Ok(payload) => Oid::from_payload(payload),
            Err(e) => Err(e),
        }
    }
}

/// The encodings of arcs end with a byte whose high bit is clear, and there
/// are bytes exactly when there are arcs.
pub proof fn lemma_arcs_encoding_ends(arcs: Seq<u128>)
    ensures
        arcs.len() == 0 <==> arcs_encoding(arcs).len() == 0,
        arcs.len() > 0 ==> arcs_encoding(arcs).last() < 128,
        arcs_encoding(arcs).len() >= arcs.len(),
    decreases arcs.len(),
{
    if arcs.len() > 0 {
        lemma_arcs_encoding_ends(arcs.skip(1));
    }
}

/// No arc takes more than 19 bytes, so `arcs` take no more than 19 bytes
/// each.
pub proof fn lemma_arcs_encoding_len(arcs: Seq<u128>)
    ensures
        arcs_encoding(arcs).len() <= 19 * arcs.len(),
    decreases arcs.len(),
{
    if arcs.len() > 0 {
        lemma_arcs_encoding_len(arcs.skip(1));
        lemma_pow128();
        lemma_encoding_len(arcs[0] as nat, 19);
    }
}

/// In the encodings of arcs the byte `0x80` stands only behind a byte whose
/// high bit is set: no arc begins with it.
pub proof fn lemma_arcs_encoding_is_minimal(arcs: Seq<u128>)
    ensures
        forall|i: int|
            0 <= i < arcs_encoding(arcs).len() && #[trigger] arcs_encoding(arcs)[i] == 128 ==> i
                >= 1 && arcs_encoding(arcs)[i - 1] >= 128,
    decreases arcs.len(),
{
    let all = arcs_encoding(arcs);
    if arcs.len() > 0 {
        let first = varint_encoding(arcs[0] as nat);
        let rest = arcs_encoding(arcs.skip(1));
        lemma_encoding_is_minimal(arcs[0] as nat);
        lemma_arcs_encoding_is_minimal(arcs.skip(1));
        assert forall|i: int| 0 <= i < all.len() && #[trigger] all[i] == 128 implies i >= 1
            && all[i - 1] >= 128 by {
            if i < first.len() {
                assert(all[i] == first[i]);
                assert(i >= 1);
                assert(all[i - 1] == first[i - 1]);
            } else {
                assert(all[i] == rest[i - first.len()]);
                assert(i - first.len() >= 1);
                assert(all[i - 1] == rest[i - first.len() - 1]);
            }
        }
    }
}

/// Every payload of an identifier holds its arcs in their shortest form.
pub proof fn lemma_payload_is_minimal(arcs: Seq<u128>)
    requires
        payload_of(arcs) is Ok,
    ensures
        is_minimal_payload(payload_of(arcs)->Ok_0),
{
    let payload = payload_of(arcs)->Ok_0;
    let tail = arcs_encoding(arcs.skip(2));
    lemma_arcs_encoding_is_minimal(arcs.skip(2));
    assert forall|i: int| 1 <= i < payload.len() && #[trigger] payload[i] == 128 implies i >= 2
        && payload[i - 1] >= 128 by {
        assert(payload[i] == tail[i - 1]);
        assert(i - 1 >= 1);
        assert(payload[i - 1] == tail[i - 2]);
    }
}

/// Behind any bytes `before`, the encodings of `arcs` read back as `arcs`.
pub proof fn lemma_varint_values_of_encoding(before: Seq<u8>, arcs: Seq<u128>)
    ensures
        varint_values(before + arcs_encoding(arcs), before.len() as int) == Seq::new(
            arcs.len(),
            |i: int| arcs[i] as nat,
        ),
    decreases arcs.len(),
{
    let s = before + arcs_encoding(arcs);
    let start = before.len() as int;
    if arcs.len() > 0 {
        let first = varint_encoding(arcs[0] as nat);
        let rest = arcs.skip(1);
        let end = start + first.len();
        lemma_encoding_is_minimal(arcs[0] as nat);
        lemma_encoding_roundtrip(arcs[0] as nat);
        assert(s.subrange(start, end) =~= first);
        lemma_varint_end_of_arc(s, start, end);
        lemma_varint_values_of_encoding(before + first, rest);
        assert(before + first + arcs_encoding(rest) =~= s);
    }
}

/// The blob of an identifier whose second arc is below forty reads back as
/// that identifier.
pub proof fn lemma_decode_encode(arcs: Seq<u128>)
    requires
        arcs.len() >= 2,
        arcs[1] < 40,
        blob_of(arcs) is Ok,
    ensures
        arcs_of_blob(blob_of(arcs)->Ok_0) == Ok::<Seq<u128>, CodecError>(arcs),
{
    let payload = payload_of(arcs)->Ok_0;
    let rest = arcs.skip(2);
    let folded = seq![first_octet(arcs) as u8];
    lemma_frame_roundtrip(payload);
    lemma_arcs_encoding_ends(rest);
    lemma_varint_values_of_encoding(folded, rest);
    let values = varint_values(payload, 1);
    assert(seq![(payload[0] / 40) as u128, (payload[0] % 40) as u128] + as_arcs(values) =~= arcs);
}

/// From `start` on, the complete arcs of `s` written out again are the bytes
/// of `s`, when `s` ends where an arc ends, no arc begins with `0x80` and
/// every arc fits in 128 bits.
pub proof fn lemma_encoding_of_varint_values(s: Seq<u8>, start: int)
    requires
        0 <= start <= s.len(),
        start < s.len() ==> s.last() < 128,
        forall|i: int|
            start <= i < s.len() && #[trigger] s[i] == 128 ==> i > start && s[i - 1] >= 128,
        forall|i: int|
            0 <= i < varint_values(s, start).len() ==> varint_values(s, start)[i] <= u128::MAX,
    ensures
        arcs_encoding(as_arcs(varint_values(s, start))) == s.subrange(start, s.len() as int),
    decreases s.len() - start,
{
    let values = varint_values(s, start);
    lemma_varint_end(s, start);
    if start < s.len() {
        let end = varint_end(s, start)->0;
        let arc = s.subrange(start, end);
        let tail = varint_values(s, end);
        lemma_minimal_varint_is_encoding(arc);
        assert forall|i: int| 0 <= i < tail.len() implies tail[i] <= u128::MAX by {
            assert(tail[i] == values[i + 1]);
        }
        lemma_encoding_of_varint_values(s, end);
        assert(as_arcs(values).skip(1) =~= as_arcs(tail));
    }
}

/// A blob in which every arc is in its shortest form is the blob of the
/// identifier that it holds.
pub proof fn lemma_encode_decode(blob: Seq<u8>)
    requires
        arcs_of_blob(blob) is Ok,
        is_minimal_payload(blob.skip(1)),
    ensures
        arcs_of_blob(blob)->Ok_0.len() >= 2,
        blob_of(arcs_of_blob(blob)->Ok_0) == Ok::<Seq<u8>, CodecError>(blob),
{
    let payload = blob.skip(1);
    let arcs = arcs_of_blob(blob)->Ok_0;
    let values = varint_values(payload, 1);
    lemma_unframe_roundtrip(blob);
    assert(arcs.skip(2) =~= as_arcs(values));
    lemma_encoding_of_varint_values(payload, 1);
    assert(seq![payload[0]] + payload.subrange(1, payload.len() as int) =~= payload);
}

} // verus!
