//! Splitting a byte sequence at a byte offset into a prefix and a suffix.
//! The offset must fall on a valid boundary of the text's encoding; an
//! offset inside a multi-byte character is rejected rather than silently
//! truncated. The source is never mutated, and concatenating the two outputs
//! reconstructs it exactly.

use vstd::prelude::*;

verus! {

/// The error returned when the requested offset is not a valid boundary.
#[derive(Clone, Copy, PartialEq, Eq, Structural, Debug)]
pub enum SplitError {
    InvalidBoundary,
}

/// In UTF-8 encoded text, an offset is a character boundary when it sits at
/// either end of the sequence or the byte at the offset is not a
/// continuation byte (one of the form `0b10xx_xxxx`).
pub open spec fn is_boundary(s: Seq<u8>, offset: int) -> bool {
    offset == 0 || offset == s.len() || (0 <= offset < s.len() && (s[offset] & 0xC0) != 0x80)
}

/// Splits `bytes` at `offset`: the prefix holds the bytes before the offset
/// and the suffix the bytes from the offset onward. Succeeds if and only if
/// the offset lies within the sequence on a valid boundary; otherwise the
/// split fails with `InvalidBoundary`. Concatenating prefix and suffix
/// yields the original sequence again.
pub fn split_at_offset(bytes: &Vec<u8>, offset: usize) -> (r: Result<
    (Vec<u8>, Vec<u8>),
    SplitError,
>)
    ensures
        r is Ok <==> (offset <= bytes@.len() && is_boundary(bytes@, offset as int)),
        r is Err ==> r == Err::<(Vec<u8>, Vec<u8>), SplitError>(SplitError::InvalidBoundary),
        r matches Ok(p) ==> {
            &&& p.0@ == bytes@.take(offset as int)
            &&& p.1@ == bytes@.skip(offset as int)
            &&& p.0@ + p.1@ == bytes@
        },
{
    if offset > bytes.len() {
        return Err(SplitError::InvalidBoundary);
    }
    if offset != 0 && offset != bytes.len() {
        let b: u8 = bytes[offset];
        if (b & 0xC0) == 0x80 {
            return Err(SplitError::InvalidBoundary);
        }
    }
    let mut prefix: Vec<u8> = Vec::new();
    let mut k: usize = 0;
    while k < offset
        invariant
            k <= offset <= bytes@.len(),
            prefix@ == bytes@.take(k as int),
        decreases offset - k,
    {
        prefix.push(bytes[k]);
        proof {
            assert(prefix@ =~= bytes@.take(k + 1));
        }
        k = k + 1;
    }
    let mut suffix: Vec<u8> = Vec::new();
    let mut t: usize = offset;
    while t < bytes.len()
        invariant
            offset <= t <= bytes@.len(),
            suffix@ == bytes@.subrange(offset as int, t as int),
        decreases bytes@.len() - t,
    {
        suffix.push(bytes[t]);
        proof {
            assert(suffix@ =~= bytes@.subrange(offset as int, t + 1));
        }
        t = t + 1;
    }
    proof {
        assert(suffix@ == bytes@.skip(offset as int));
        assert(bytes@.take(offset as int) + bytes@.skip(offset as int) =~= bytes@);
    }
    Ok((prefix, suffix))
}

} // verus!
