//! Small byte-buffer helpers shared by the encoders and decoders.

use vstd::prelude::*;
use vstd::slice::{slice_subrange, slice_to_vec};

verus! {

/// Returns the `count` bytes of `input` starting at `pos`, or nothing when
/// the input is too short. This is the decoder's only way of consuming raw
/// byte ranges, so every short read surfaces here.
pub fn take<'a>(input: &'a [u8], pos: usize, count: usize) -> (r: Option<&'a [u8]>)
    requires
        pos <= input@.len(),
    ensures
        match r {
            Some(s) => pos + count <= input@.len() && s@ == input@.subrange(
                pos as int,
                pos + count,
            ),
            None => pos + count > input@.len(),
        },
{
    if count > input.len() - pos {
        None
    } else {
        Some(slice_subrange(input, pos, pos + count))
    }
}

/// As `take`, but copied into an owned vector.
pub fn take_vec(input: &[u8], pos: usize, count: usize) -> (r: Option<Vec<u8>>)
    requires
        pos <= input@.len(),
    ensures
        match r {
            Some(s) => pos + count <= input@.len() && s@ == input@.subrange(
                pos as int,
                pos + count,
            ),
            None => pos + count > input@.len(),
        },
{
    match take(input, pos, count) {
        Some(s) => Some(slice_to_vec(s)),
        None => None,
    }
}

/// Appends all of `src` to `out`.
pub fn push_bytes(out: &mut Vec<u8>, src: &[u8])
    ensures
        final(out)@ == old(out)@ + src@,
{
    let mut i: usize = 0;
    while i < src.len()
        invariant
            i <= src@.len(),
            out@ == old(out)@ + src@.take(i as int),
        decreases src@.len() - i,
    {
        out.push(src[i]);
        proof {
            assert(src@.take(i + 1) =~= src@.take(i as int).push(src@[i as int]));
        }
        i += 1;
    }
    proof {
        assert(src@.take(src@.len() as int) =~= src@);
    }
}

} // verus!
