//! Variable-length size codec.
//!
//! A nibble count (bounded at 65535) and a 2-bit type tag are packed into a
//! first byte holding the tag in its top two bits and a 6-bit magnitude in
//! its low bits. Counts up to 62 fit the first byte; larger counts set the
//! magnitude field to the sentinel 63 and carry `count - 62` in continuation
//! bytes, 255 at a time, terminated by the first byte below 255 (which
//! contributes `byte + 1`). Counts beyond the bound are silently truncated
//! to the bound by encoder and decoder alike.

use vstd::prelude::*;

verus! {

/// Largest nibble count representable by the no-extension layout.
pub const NIBBLE_SIZE_BOUND_NO_EXT: usize = 65535;

/// The continuation bytes that encode a remainder `rem >= 1`.
pub open spec fn size_tail(rem: nat) -> Seq<u8>
    decreases rem,
{
    if rem <= 255 {
        seq![(rem - 1) as u8]
    } else {
        seq![255u8] + size_tail((rem - 255) as nat)
    }
}

/// The full encoding of a size with a 2-bit prefix tag: the size is first
/// truncated to the bound, then packed as described in the module header.
pub open spec fn encoded_size_prefix(size: nat, prefix: u8) -> Seq<u8> {
    let s: nat = if size > 65535 {
        65535nat
    } else {
        size
    };
    if s <= 62 {
        seq![(prefix + s) as u8]
    } else {
        seq![(prefix + 63) as u8] + size_tail((s - 62) as nat)
    }
}

/// What the decoder's continuation loop yields from an accumulator and the
/// remaining input: the decoded count and the number of bytes consumed, or
/// nothing when the input runs out or the bound is exceeded before a
/// terminal byte.
pub open spec fn decode_size_rec(acc: nat, data: Seq<u8>) -> Option<(nat, nat)>
    decreases data.len(),
{
    if acc > 65535 {
        None
    } else if data.len() == 0 {
        None
    } else if data[0] < 255 {
        Some((((acc + data[0] + 1) as nat, 1nat)))
    } else {
        match decode_size_rec((acc + 255) as nat, data.skip(1)) {
            None => None,
            Some((v, k)) => Some(((v, (k + 1) as nat))),
        }
    }
}

/// What decoding yields from the first byte and the bytes that follow it:
/// the decoded count and the number of continuation bytes consumed.
pub open spec fn decode_size_spec(first: u8, data: Seq<u8>) -> Option<(nat, nat)> {
    if (first & 63) < 63 {
        Some((((first & 63) as nat, 0nat)))
    } else {
        decode_size_rec(62, data)
    }
}

/// Any successful decode stays below 65791 and consumes at least one and at
/// most all of the remaining bytes.
pub proof fn lemma_decode_size_rec_bound(acc: nat, data: Seq<u8>)
    ensures
        match decode_size_rec(acc, data) {
            Some((v, k)) => acc <= 65535 && v <= 65790 && 1 <= k <= data.len(),
            None => true,
        },
    decreases data.len(),
{
    if acc <= 65535 && data.len() > 0 && data[0] >= 255 {
        lemma_decode_size_rec_bound((acc + 255) as nat, data.skip(1));
    }
}

/// Appends to `out` the encoding of `size` under the 2-bit tag `prefix`
/// (whose low six bits must be clear). The size is truncated to the bound.
pub fn encode_size_and_prefix(size: usize, prefix: u8, out: &mut Vec<u8>)
    requires
        prefix & 192 == prefix,
    ensures
        final(out)@ == old(out)@ + encoded_size_prefix(size as nat, prefix),
{
    proof {
        assert(prefix <= 192) by (bit_vector)
            requires
                prefix & 192 == prefix,
        ;
    }
    let bounded: usize = if size > 65535 {
        65535
    } else {
        size
    };
    if bounded <= 62 {
        out.push(prefix + bounded as u8);
        return ;
    }
    out.push(prefix + 63);
    let ghost target: Seq<u8> = old(out)@ + encoded_size_prefix(size as nat, prefix);
    let mut rem: usize = bounded - 62;
    while rem > 255
        invariant
            1 <= rem <= 65473,
            out@ + size_tail(rem as nat) == target,
        decreases rem,
    {
        out.push(255);
        proof {
            assert(seq![255u8] + size_tail((rem - 255) as nat) == size_tail(rem as nat));
            assert(out@ + size_tail((rem - 255) as nat) == target);
        }
        rem -= 255;
    }
    out.push((rem - 1) as u8);
    proof {
        assert(size_tail(rem as nat) == seq![(rem - 1) as u8]);
        assert(out@ == target);
    }
}

/// The encoding of a size under a 2-bit tag, as a fresh byte vector. This is
/// the building block of the no-extension header codec.
pub fn size_and_prefix_iterator(size: usize, prefix: u8) -> (r: Vec<u8>)
    requires
        prefix & 192 == prefix,
    ensures
        r@ == encoded_size_prefix(size as nat, prefix),
{
    let mut out: Vec<u8> = Vec::new();
    encode_size_and_prefix(size, prefix, &mut out);
    out
}

/// Decodes a size from its first byte and the continuation bytes found in
/// `data` from position `pos` on; on success the returned position is the
/// first byte after the continuation run.
pub fn decode_size(first: u8, data: &[u8], pos: usize) -> (r: Option<(usize, usize)>)
    requires
        pos <= data@.len(),
    ensures
        match decode_size_spec(first, data@.skip(pos as int)) {
            Some((v, k)) => r == Some(((v as usize, (pos + k) as usize))) && v <= 65790 && pos + k
                <= data@.len(),
            None => r == None::<(usize, usize)>,
        },
{
    let low = first & 63;
    if low < 63 {
        return Some((low as usize, pos));
    }
    let mut result: usize = 62;
    let mut i: usize = pos;
    loop
        invariant
            first & 63 >= 63,
            pos <= i <= data@.len(),
            62 <= result <= 65790,
            match decode_size_rec(result as nat, data@.skip(i as int)) {
                Some((v, k)) => decode_size_rec(62, data@.skip(pos as int)) == Some(
                    ((v, (k + i - pos) as nat)),
                ),
                None => decode_size_rec(62, data@.skip(pos as int)) == None::<(nat, nat)>,
            },
        decreases data@.len() - i,
    {
        if result > 65535 {
            proof {
                assert(decode_size_rec(result as nat, data@.skip(i as int)) == None::<(nat, nat)>);
            }
            return None;
        }
        if i >= data.len() {
            proof {
                assert(data@.skip(i as int).len() == 0);
                assert(decode_size_rec(result as nat, data@.skip(i as int)) == None::<(nat, nat)>);
            }
            return None;
        }
        let n = data[i];
        proof {
            assert(data@.skip(i as int)[0] == data@[i as int]);
            assert(data@.skip(i as int).skip(1) =~= data@.skip(i as int + 1));
            lemma_decode_size_rec_bound(62, data@.skip(pos as int));
        }
        i += 1;
        if n < 255 {
            return Some((result + n as usize + 1, i));
        }
        result += 255;
    }
}

/// Decoding inverts encoding: for any size and 2-bit tag, the encoded bytes
/// decode back to the size truncated at the bound, the decoder consumes
/// exactly the continuation run whatever follows it, and the first byte
/// carries the tag in its top two bits.
pub proof fn lemma_size_round_trip(size: nat, prefix: u8, rest: Seq<u8>)
    requires
        prefix & 192 == prefix,
    ensures
        ({
            let enc = encoded_size_prefix(size, prefix);
            let s: nat = if size > 65535 {
                65535nat
            } else {
                size
            };
            &&& enc.len() >= 1
            &&& enc[0] & 192 == prefix
            &&& decode_size_spec(enc[0], enc.skip(1) + rest) == Some((s, (enc.len() - 1) as nat))
        }),
{
    let enc = encoded_size_prefix(size, prefix);
    let s: nat = if size > 65535 {
        65535nat
    } else {
        size
    };
    if s <= 62 {
        let sb = s as u8;
        assert(((prefix + sb) as u8) & 63 == sb && ((prefix + sb) as u8) & 192 == prefix && sb & 63
            == sb) by (bit_vector)
            requires
                prefix & 192 == prefix,
                sb <= 62,
        ;
        assert(enc.skip(1) + rest =~= rest);
    } else {
        assert(((prefix + 63) as u8) & 63 == 63 && ((prefix + 63) as u8) & 192 == prefix)
            by (bit_vector)
            requires
                prefix & 192 == prefix,
        ;
        let tail = size_tail((s - 62) as nat);
        assert(enc.skip(1) =~= tail);
        lemma_size_tail_decode(62, (s - 62) as nat, rest);
    }
}

/// The continuation run `size_tail(rem)` decodes, from accumulator `acc`, to
/// `acc + rem`, consuming exactly its own bytes whatever follows it.
proof fn lemma_size_tail_decode(acc: nat, rem: nat, rest: Seq<u8>)
    requires
        1 <= rem,
        acc + rem <= 65535,
    ensures
        decode_size_rec(acc, size_tail(rem) + rest) == Some(
            (((acc + rem) as nat, size_tail(rem).len())),
        ),
    decreases rem,
{
    let data = size_tail(rem) + rest;
    if rem <= 255 {
        assert(data[0] == (rem - 1) as u8);
    } else {
        assert(data[0] == 255);
        assert(data.skip(1) =~= size_tail((rem - 255) as nat) + rest);
        lemma_size_tail_decode((acc + 255) as nat, (rem - 255) as nat, rest);
    }
}

} // verus!
