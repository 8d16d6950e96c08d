//! The compact unsigned-integer codec used for length prefixes.
//!
//! Values and inline child blobs are length-prefixed on the wire by a
//! general-purpose compact integer codec supplied by an outside crate; this
//! module states its byte format exactly and wraps the two calls the node
//! codecs make.

use vstd::prelude::*;
use vstd::arithmetic::div_mod::{lemma_fundamental_div_mod, lemma_fundamental_div_mod_converse,
    lemma_div_denominator, lemma_small_mod, lemma_mod_mod, lemma_multiply_divide_lt};

verus! {

/// Two little-endian bytes of `v`.
pub open spec fn le2(v: nat) -> Seq<u8> {
    seq![(v % 256) as u8, ((v / 256) % 256) as u8]
}

/// Four little-endian bytes of `v`.
pub open spec fn le4(v: nat) -> Seq<u8> {
    seq![
        (v % 256) as u8,
        ((v / 256) % 256) as u8,
        ((v / 65536) % 256) as u8,
        ((v / 16777216) % 256) as u8,
    ]
}

/// The compact encoding of a 32-bit value: the two low bits of the first
/// byte select the mode (one, two or four bytes holding `4 * n + mode`
/// little-endian, or a `3` marker byte followed by four plain little-endian
/// bytes).
pub open spec fn compact_of(n: u32) -> Seq<u8> {
    if n < 64 {
        seq![(n * 4) as u8]
    } else if n < 16384 {
        le2((n * 4 + 1) as nat)
    } else if n < 1073741824 {
        le4((n * 4 + 2) as nat)
    } else {
        seq![3u8] + le4(n as nat)
    }
}

/// What compact decoding yields from a byte sequence: the value and the
/// number of bytes consumed. Non-canonical inputs (a wide mode holding a
/// small value) are accepted, exactly as the outside decoder accepts them;
/// a `3` marker whose high bits are nonzero is rejected, as are short reads.
pub open spec fn compact_decode_spec(data: Seq<u8>) -> Option<(u32, nat)> {
    if data.len() == 0 {
        None
    } else {
        let p = data[0];
        if p % 4 == 0 {
            Some((((p / 4) as u32, 1nat)))
        } else if p % 4 == 1 {
            if data.len() < 2 {
                None
            } else {
                Some(((((p + data[1] * 256) / 4) as u32, 2nat)))
            }
        } else if p % 4 == 2 {
            if data.len() < 4 {
                None
            } else {
                Some(
                    ((((p + data[1] * 256 + data[2] * 65536 + data[3] * 16777216) / 4) as u32,
                    4nat)),
                )
            }
        } else {
            if p / 4 != 0 {
                None
            } else if data.len() < 5 {
                None
            } else {
                Some(
                    (((data[1] + data[2] * 256 + data[3] * 65536 + data[4] * 16777216) as u32,
                    5nat)),
                )
            }
        }
    }
}

/// Relies on `parity_codec::Compact::<u32>::encode`: the compact byte format
/// stated by `compact_of`.
#[verifier::external_body]
pub fn compact_u32_encode(n: u32) -> (r: Vec<u8>)
    ensures
        r@ == compact_of(n),
{
    parity_codec::Encode::encode(&parity_codec::Compact(n))
}

/// Relies on `parity_codec::Compact::<u32>::decode`: reads the prefix byte
/// at `pos`, then the continuation bytes its mode asks for, as stated by
/// `compact_decode_spec`; on success the returned position is the first
/// unread byte.
#[verifier::external_body]
pub fn compact_u32_decode(data: &[u8], pos: usize) -> (r: Option<(u32, usize)>)
    requires
        pos <= data@.len(),
    ensures
        match compact_decode_spec(data@.skip(pos as int)) {
            Some((v, k)) => r == Some(((v, (pos + k) as usize))),
            None => r == None::<(u32, usize)>,
        },
{
    let mut input = &data[pos..];
    let before = input.len();
    match <parity_codec::Compact<u32> as parity_codec::Decode>::decode(&mut input) {
        Some(c) => Some((c.0, pos + (before - input.len()))),
        None => None,
    }
}

/// Relies on `u16::decode` of the same outside codec: two little-endian
/// bytes, or nothing when fewer than two bytes remain.
#[verifier::external_body]
pub fn u16_decode_le(data: &[u8]) -> (r: Option<u16>)
    ensures
        data@.len() >= 2 ==> r == Some((data@[0] + data@[1] * 256) as u16),
        data@.len() < 2 ==> r == None::<u16>,
{
    <u16 as parity_codec::Decode>::decode(&mut &data[..])
}

/// The two little-endian digits of a value below 65536 recompose to it.
proof fn lemma_le2_recompose(v: nat)
    requires
        v < 65536,
    ensures
        (v % 256) + 256 * ((v / 256) % 256) == v,
{
    lemma_fundamental_div_mod(v as int, 256);
    lemma_multiply_divide_lt(v as int, 256, 256);
    lemma_small_mod(v / 256, 256);
}

/// The four little-endian digits of a 32-bit value recompose to it.
proof fn lemma_le4_recompose(v: nat)
    requires
        v < 4294967296,
    ensures
        (v % 256) + 256 * ((v / 256) % 256) + 65536 * ((v / 65536) % 256) + 16777216 * ((v
            / 16777216) % 256) == v,
{
    let q1 = v / 256;
    let q2 = v / 65536;
    let q3 = v / 16777216;
    lemma_fundamental_div_mod(v as int, 256);
    lemma_fundamental_div_mod(q1 as int, 256);
    lemma_div_denominator(v as int, 256, 256);
    assert(q1 / 256 == q2);
    lemma_fundamental_div_mod(q2 as int, 256);
    lemma_div_denominator(v as int, 65536, 256);
    assert(q2 / 256 == q3);
    lemma_multiply_divide_lt(v as int, 16777216, 256);
    lemma_small_mod(q3, 256);
}

/// Compact decoding inverts compact encoding: the encoded bytes decode back
/// to the value, consuming exactly the encoding whatever follows it.
pub proof fn lemma_compact_round_trip(n: u32, rest: Seq<u8>)
    ensures
        compact_decode_spec(compact_of(n) + rest) == Some((n, compact_of(n).len())),
{
    let data = compact_of(n) + rest;
    if n < 64 {
        lemma_fundamental_div_mod_converse(n * 4, 4, n as int, 0);
    } else if n < 16384 {
        let v: nat = (n * 4 + 1) as nat;
        lemma_le2_recompose(v);
        lemma_mod_mod(v as int, 4, 64);
        lemma_fundamental_div_mod_converse(v as int, 4, n as int, 1);
        assert(data[0] == (v % 256) as u8 && data[1] == ((v / 256) % 256) as u8);
        assert(data[0] % 4 == 1);
        assert((data[0] + data[1] * 256) as int == v);
    } else if n < 1073741824 {
        let v: nat = (n * 4 + 2) as nat;
        lemma_le4_recompose(v);
        lemma_mod_mod(v as int, 4, 64);
        lemma_fundamental_div_mod_converse(v as int, 4, n as int, 2);
        assert(data[0] == (v % 256) as u8 && data[1] == ((v / 256) % 256) as u8 && data[2] == ((v
            / 65536) % 256) as u8 && data[3] == ((v / 16777216) % 256) as u8);
        assert(data[0] % 4 == 2);
        assert((data[0] + data[1] * 256 + data[2] * 65536 + data[3] * 16777216) as int == v);
    } else {
        let v: nat = n as nat;
        lemma_le4_recompose(v);
        assert(data[0] == 3 && data[1] == (v % 256) as u8 && data[2] == ((v / 256) % 256) as u8
            && data[3] == ((v / 65536) % 256) as u8 && data[4] == ((v / 16777216) % 256) as u8);
        assert((data[1] + data[2] * 256 + data[3] * 65536 + data[4] * 16777216) as int == v);
    }
}

/// A successful compact decode consumes at least one and at most all of the
/// bytes.
pub proof fn lemma_compact_decode_len(data: Seq<u8>)
    ensures
        match compact_decode_spec(data) {
            Some((v, k)) => 1 <= k <= data.len(),
            None => true,
        },
{
}

/// A value's wire form: its length as a compact integer, then its bytes.
pub open spec fn value_wire(v: Seq<u8>) -> Seq<u8> {
    compact_of(v.len() as u32) + v
}

/// Appends `value` to `out`, length-prefixed with the compact codec.
pub fn encode_bytes_prefixed(value: &[u8], out: &mut Vec<u8>)
    requires
        value@.len() <= u32::MAX,
    ensures
        final(out)@ == old(out)@ + value_wire(value@),
{
    let prefix = compact_u32_encode(value.len() as u32);
    crate::bytes::push_bytes(out, prefix.as_slice());
    crate::bytes::push_bytes(out, value);
    proof {
        assert(out@ =~= old(out)@ + value_wire(value@));
    }
}

} // verus!
