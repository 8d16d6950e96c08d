//! Child-presence bitmap codecs for the two radices.
//!
//! A bitmap records which of a branch's child slots are populated, bit `i`
//! standing for slot `i`. The 16-ary bitmap occupies two bytes (low byte
//! first) and every two-byte input decodes; the 4-ary bitmap occupies one
//! byte whose top four bits are reserved and must be zero.

use vstd::prelude::*;
use vstd::arithmetic::power2::{pow2, lemma2_to64};
use vstd::arithmetic::div_mod::{
    lemma_fundamental_div_mod,
    lemma_fundamental_div_mod_converse,
    lemma_div_denominator,
};
use vstd::bits::{lemma_u16_shr_is_div, lemma_u8_shr_is_div};
use crate::errors::ReferenceError;
use crate::nibble::Radix;
use crate::compact::u16_decode_le;

verus! {

/// The bitmap value whose bit `i` is set exactly when `flags[i]` holds.
pub open spec fn bitmap_val(flags: Seq<bool>) -> nat
    decreases flags.len(),
{
    if flags.len() == 0 {
        0
    } else {
        (if flags[0] {
            1nat
        } else {
            0nat
        }) + 2 * bitmap_val(flags.skip(1))
    }
}

/// Bit `i` of `v`.
pub open spec fn get_bit(v: nat, i: nat) -> bool {
    (v / pow2(i)) % 2 == 1
}

/// A bitmap value stays below `2 ^ flags.len()`.
pub proof fn lemma_bitmap_val_bound(flags: Seq<bool>)
    ensures
        bitmap_val(flags) < pow2(flags.len()),
    decreases flags.len(),
{
    if flags.len() == 0 {
        lemma2_to64();
    } else {
        lemma_bitmap_val_bound(flags.skip(1));
        assert(pow2(flags.len()) == 2 * pow2((flags.len() - 1) as nat)) by {
            vstd::arithmetic::power2::lemma_pow2_unfold(flags.len());
        }
    }
}

/// Bit `i` of the bitmap value is `flags[i]`, and every bit at or beyond the
/// length is clear.
pub proof fn lemma_bitmap_val_bit(flags: Seq<bool>, i: nat)
    ensures
        i < flags.len() ==> get_bit(bitmap_val(flags), i) == flags[i as int],
        i >= flags.len() ==> !get_bit(bitmap_val(flags), i),
    decreases flags.len(),
{
    lemma2_to64();
    let v = bitmap_val(flags);
    if flags.len() == 0 {
        assert(v / pow2(i) == 0) by {
            vstd::arithmetic::power2::lemma_pow2_pos(i);
        }
    } else {
        let b: nat = if flags[0] {
            1nat
        } else {
            0nat
        };
        let w = bitmap_val(flags.skip(1));
        if i == 0 {
            assert(v % 2 == b) by {
                lemma_fundamental_div_mod_converse(v as int, 2, w as int, b as int);
            }
            assert(pow2(0) == 1);
            assert(v / 1 == v) by {
                vstd::arithmetic::div_mod::lemma_div_basics_1(v as int);
            }
            assert(get_bit(v, 0) == (v % 2 == 1));
        } else {
            lemma_bitmap_val_bit(flags.skip(1), (i - 1) as nat);
            assert(v / 2 == w) by {
                lemma_fundamental_div_mod_converse(v as int, 2, w as int, b as int);
            }
            assert(v / pow2(i) == w / pow2((i - 1) as nat)) by {
                vstd::arithmetic::power2::lemma_pow2_unfold(i);
                vstd::arithmetic::power2::lemma_pow2_pos((i - 1) as nat);
                lemma_div_denominator(v as int, 2, pow2((i - 1) as nat) as int);
            }
        }
    }
}

/// The encoded bytes of a child bitmap: two bytes low-first for the 16-ary
/// radix, one byte for the 4-ary radix.
pub open spec fn bitmap_bytes(flags: Seq<bool>, radix: Radix) -> Seq<u8> {
    let v = bitmap_val(flags);
    match radix {
        Radix::Sixteen => seq![(v % 256) as u8, (v / 256) as u8],
        Radix::Four => seq![v as u8],
    }
}

/// Bitmap codec for radix 16.
#[derive(Debug, PartialEq, Eq, Structural)]
pub struct BitMap16(pub u16);

impl BitMap16 {
    /// Decodes two little-endian bytes; fails only on a short input.
    pub fn decode(data: &[u8]) -> (r: Result<BitMap16, ReferenceError>)
        ensures
            data@.len() >= 2 ==> r == Ok::<BitMap16, ReferenceError>(
                BitMap16((data@[0] + data@[1] * 256) as u16),
            ),
            data@.len() < 2 ==> r == Err::<BitMap16, ReferenceError>(ReferenceError::BadFormat),
    {
        match u16_decode_le(data) {
            Some(v) => Ok(BitMap16(v)),
            None => Err(ReferenceError::BadFormat),
        }
    }

    /// Whether child slot `i` is populated.
    pub fn value_at(&self, i: usize) -> (r: bool)
        requires
            i < 16,
        ensures
            r == get_bit(self.0 as nat, i as nat),
    {
        let shifted = self.0 >> (i as u16);
        proof {
            lemma_u16_shr_is_div(self.0, i as u16);
            assert(shifted % 2 == 1 <==> shifted & 1 == 1) by (bit_vector);
        }
        shifted & 1 == 1
    }

    /// Encodes which child slots are populated, one bit per slot.
    pub fn encode(has_children: &[bool]) -> (r: Vec<u8>)
        requires
            has_children@.len() <= 16,
        ensures
            r@ == bitmap_bytes(has_children@, Radix::Sixteen),
    {
        let v = bitmap_accumulate(has_children, 16);
        let lo = (v % 256) as u8;
        let hi = (v / 256) as u8;
        let mut out: Vec<u8> = Vec::new();
        out.push(lo);
        out.push(hi);
        proof {
            assert(out@ =~= bitmap_bytes(has_children@, Radix::Sixteen));
        }
        out
    }
}

/// Bitmap codec for radix 4. The single byte's top four bits are reserved:
/// decoding fails exactly when the input is empty or any of them is set.
#[derive(Debug, PartialEq, Eq, Structural)]
pub struct BitMap4(pub u8);

impl BitMap4 {
    /// Decodes the single bitmap byte; fails on an empty input or when any
    /// of the reserved top four bits is set.
    pub fn decode(data: &[u8]) -> (r: Result<BitMap4, ReferenceError>)
        ensures
            data@.len() >= 1 && data@[0] < 16 ==> r == Ok::<BitMap4, ReferenceError>(
                BitMap4(data@[0]),
            ),
            data@.len() == 0 || data@[0] >= 16 ==> r == Err::<BitMap4, ReferenceError>(
                ReferenceError::BadFormat,
            ),
    {
        if data.len() == 0 {
            return Err(ReferenceError::BadFormat);
        }
        let b = data[0];
        proof {
            assert(b & 0xf0 != 0 <==> b >= 16) by (bit_vector);
        }
        if b & 0xf0 != 0 {
            Err(ReferenceError::BadFormat)
        } else {
            Ok(BitMap4(b))
        }
    }

    /// Whether child slot `i` is populated.
    pub fn value_at(&self, i: usize) -> (r: bool)
        requires
            i < 4,
        ensures
            r == get_bit(self.0 as nat, i as nat),
    {
        let shifted = self.0 >> (i as u8);
        proof {
            lemma_u8_shr_is_div(self.0, i as u8);
            assert(shifted % 2 == 1 <==> shifted & 1 == 1) by (bit_vector);
        }
        shifted & 1 == 1
    }

    /// Encodes which child slots are populated, one bit per slot.
    pub fn encode(has_children: &[bool]) -> (r: Vec<u8>)
        requires
            has_children@.len() <= 4,
        ensures
            r@ == bitmap_bytes(has_children@, Radix::Four),
    {
        let v = bitmap_accumulate(has_children, 4);
        let mut out: Vec<u8> = Vec::new();
        out.push(v as u8);
        proof {
            lemma_bitmap_val_bound(has_children@);
            lemma2_to64();
            assert(out@ =~= bitmap_bytes(has_children@, Radix::Four));
        }
        out
    }
}

/// Folds the flags into the bitmap value, last slot first.
fn bitmap_accumulate(has_children: &[bool], cap: usize) -> (r: u16)
    requires
        has_children@.len() <= cap <= 16,
    ensures
        r == bitmap_val(has_children@),
{
    proof {
        lemma2_to64();
    }
    let mut bitmap: u16 = 0;
    let mut i: usize = has_children.len();
    while i > 0
        invariant
            i <= has_children@.len() <= 16,
            bitmap == bitmap_val(has_children@.skip(i as int)),
            bitmap < pow2((has_children@.len() - i) as nat),
            pow2((has_children@.len() - i) as nat) <= 65536,
        decreases i,
    {
        i -= 1;
        proof {
            lemma2_to64();
            vstd::arithmetic::power2::lemma_pow2_unfold((has_children@.len() - i) as nat);
            assert(has_children@.skip(i as int).skip(1) =~= has_children@.skip(i as int + 1));
        }
        bitmap = 2 * bitmap + (if has_children[i] {
            1
        } else {
            0
        });
    }
    proof {
        assert(has_children@.skip(0) =~= has_children@);
    }
    bitmap
}

/// The encoded bitmap decodes back to the same value: recomposing its bytes
/// yields `bitmap_val(flags)`, and for radix 4 the reserved bits are clear.
pub proof fn lemma_bitmap_round_trip(flags: Seq<bool>, radix: Radix)
    requires
        flags.len() == radix.spec_nibble_length(),
    ensures
        bitmap_bytes(flags, radix).len() == radix.spec_bitmap_len(),
        radix == Radix::Sixteen ==> bitmap_bytes(flags, radix)[0] + bitmap_bytes(flags, radix)[1]
            * 256 == bitmap_val(flags),
        radix == Radix::Four ==> bitmap_bytes(flags, radix)[0] == bitmap_val(flags)
            && bitmap_val(flags) < 16,
{
    lemma_bitmap_val_bound(flags);
    lemma2_to64();
    let v = bitmap_val(flags);
    if radix == Radix::Sixteen {
        lemma_fundamental_div_mod(v as int, 256);
    }
}

} // verus!
