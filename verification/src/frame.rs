//! The length prefix: one byte that counts the payload bytes after it.

use crate::error::CodecError;
use vstd::prelude::*;
use vstd::slice::slice_subrange;

verus! {

/// The most bytes a payload can have: what one length byte can count.
pub const MAX_PAYLOAD_LEN: usize = 255;

/// `payload` behind its length byte, or `PayloadTooLong` when one byte cannot
/// hold its length.
pub open spec fn framed(payload: Seq<u8>) -> Result<Seq<u8>, CodecError> {
    if payload.len() > 255 {
        Err(CodecError::PayloadTooLong)
    } else {
        Ok(seq![payload.len() as u8] + payload)
    }
}

/// The payload of `blob`, or `LengthMismatch` when `blob` is empty or its
/// first byte is not the number of bytes after it.
pub open spec fn unframed(blob: Seq<u8>) -> Result<Seq<u8>, CodecError> {
    if blob.len() == 0 || blob[0] != blob.len() - 1 {
        Err(CodecError::LengthMismatch)
    } else {
        Ok(blob.skip(1))
    }
}

/// Puts the length byte in front of `payload`. An empty payload gives the
/// single byte zero.
pub fn frame(payload: &[u8]) -> (r: Result<Vec<u8>, CodecError>)
    ensures
        match r {
            Ok(blob) => framed(payload@) == Ok::<Seq<u8>, CodecError>(blob@),
            Err(e) => framed(payload@) == Err::<Seq<u8>, CodecError>(e),
        },
{
    if payload.len() > MAX_PAYLOAD_LEN {
        return Err(CodecError::PayloadTooLong);
    }
    let mut blob: Vec<u8> = Vec::new();
    blob.push(payload.len() as u8);
    let mut i: usize = 0;
    while i < payload.len()
        invariant
            i <= payload.len(),
            blob@ == seq![payload.len() as u8] + payload@.take(i as int),
        decreases payload.len() - i,
    {
        blob.push(payload[i]);
        i = i + 1;
    }
    assert(payload@.take(i as int) =~= payload@);
    Ok(blob)
}

/// Checks the length byte of `blob` and hands out the payload behind it.
pub fn unframe(blob: &[u8]) -> (r: Result<&[u8], CodecError>)
    ensures
        match r {
            Ok(payload) => unframed(blob@) == Ok::<Seq<u8>, CodecError>(payload@),
            Err(e) => unframed(blob@) == Err::<Seq<u8>, CodecError>(e),
        },
{
    if blob.len() == 0 || blob[0] as usize != blob.len() - 1 {
        return Err(CodecError::LengthMismatch);
    }
    Ok(slice_subrange(blob, 1, blob.len()))
}

/// The length byte of a framed payload counts the bytes behind it, and taking
/// the frame off gives the payload back.
pub proof fn lemma_frame_roundtrip(payload: Seq<u8>)
    requires
        payload.len() <= 255,
    ensures
        framed(payload) is Ok,
        framed(payload)->Ok_0.len() == payload.len() + 1,
        framed(payload)->Ok_0[0] == payload.len(),
        unframed(framed(payload)->Ok_0) == Ok::<Seq<u8>, CodecError>(payload),
{
    assert(framed(payload)->Ok_0.skip(1) =~= payload);
}

/// Putting the frame back on a payload that was taken out of a blob gives
/// that blob.
pub proof fn lemma_unframe_roundtrip(blob: Seq<u8>)
    requires
        unframed(blob) is Ok,
    ensures
        framed(unframed(blob)->Ok_0) == Ok::<Seq<u8>, CodecError>(blob),
{
    let payload = unframed(blob)->Ok_0;
    assert(seq![payload.len() as u8] + payload =~= blob);
}

} // verus!
