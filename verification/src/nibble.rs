//! Radix configuration, nibble masking, and the partial-key representation.

use vstd::prelude::*;

verus! {

/// The two radices a branch can have: sixteen child slots (two 4-bit nibbles
/// per byte) or four child slots (four 2-bit nibbles per byte).
#[derive(Clone, Copy, PartialEq, Eq, Debug, Structural)]
pub enum Radix {
    Sixteen,
    Four,
}

impl Radix {
    /// How many nibbles one byte packs.
    pub open spec fn spec_nibble_per_byte(self) -> nat {
        match self {
            Radix::Sixteen => 2,
            Radix::Four => 4,
        }
    }

    /// How many nibbles one byte packs.
    pub fn nibble_per_byte(self) -> (r: usize)
        ensures
            r == self.spec_nibble_per_byte(),
    {
        match self {
            Radix::Sixteen => 2,
            Radix::Four => 4,
        }
    }

    /// How many child slots a branch has.
    pub open spec fn spec_nibble_length(self) -> nat {
        match self {
            Radix::Sixteen => 16,
            Radix::Four => 4,
        }
    }

    /// How many child slots a branch has.
    pub fn nibble_length(self) -> (r: usize)
        ensures
            r == self.spec_nibble_length(),
    {
        match self {
            Radix::Sixteen => 16,
            Radix::Four => 4,
        }
    }

    /// How many bytes an encoded child bitmap occupies.
    pub open spec fn spec_bitmap_len(self) -> nat {
        match self {
            Radix::Sixteen => 2,
            Radix::Four => 1,
        }
    }

    /// How many bytes an encoded child bitmap occupies.
    pub fn bitmap_len(self) -> (r: usize)
        ensures
            r == self.spec_bitmap_len(),
    {
        match self {
            Radix::Sixteen => 2,
            Radix::Four => 1,
        }
    }

    /// How many values one nibble can take.
    pub open spec fn nibble_base(self) -> nat {
        match self {
            Radix::Sixteen => 16,
            Radix::Four => 4,
        }
    }

    /// `nibble_base ^ k`: one more than the largest value `k` right-aligned
    /// nibbles can hold in a byte.
    pub open spec fn nibble_bound(self, k: nat) -> nat
        decreases k,
    {
        if k == 0 {
            1
        } else {
            self.nibble_base() * self.nibble_bound((k - 1) as nat)
        }
    }

    /// The nibble bounds a byte can see, spelt out.
    pub proof fn lemma_nibble_bound_values(self)
        ensures
            self.nibble_bound(0) == 1,
            self.nibble_bound(1) == self.nibble_base(),
            self.nibble_bound(2) == self.nibble_base() * self.nibble_base(),
            self == Radix::Four ==> self.nibble_bound(3) == 64,
    {
        assert(self.nibble_bound(0) == 1);
        assert(self.nibble_bound(1) == self.nibble_base() * self.nibble_bound(0));
        assert(self.nibble_bound(2) == self.nibble_base() * self.nibble_bound(1));
        assert(self.nibble_bound(3) == self.nibble_base() * self.nibble_bound(2));
    }

    /// The low `n` nibbles of `b`, with everything above them cleared: the
    /// canonical form of a byte carrying `n` trailing nibbles.
    pub open spec fn spec_masked_right(self, n: nat, b: u8) -> u8 {
        ((b as nat) % self.nibble_bound(n)) as u8
    }

    /// The low `n` nibbles of `b`, with everything above them cleared.
    pub fn masked_right(self, n: u8, b: u8) -> (r: u8)
        requires
            0 < n < self.spec_nibble_per_byte(),
        ensures
            r == self.spec_masked_right(n as nat, b),
    {
        proof {
            self.lemma_nibble_bound_values();
        }
        match self {
            Radix::Sixteen => b % 16,
            Radix::Four => {
                if n == 1 {
                    b % 4
                } else if n == 2 {
                    b % 16
                } else {
                    b % 64
                }
            },
        }
    }

    /// The top `padding` nibbles of `b`: the padding area of a byte whose low
    /// `nibble_per_byte - padding` nibbles carry key data. Decoders require
    /// this to be zero.
    pub fn masked_left(self, padding: u8, b: u8) -> (r: u8)
        requires
            0 < padding < self.spec_nibble_per_byte(),
        ensures
            r as int == b - (b as nat) % self.nibble_bound(
                (self.spec_nibble_per_byte() - padding) as nat,
            ),
            (r == 0) <==> (b as nat) < self.nibble_bound(
                (self.spec_nibble_per_byte() - padding) as nat,
            ),
    {
        proof {
            self.lemma_nibble_bound_values();
        }
        let bound: u8 = match self {
            Radix::Sixteen => 16,
            Radix::Four => {
                if padding == 1 {
                    64
                } else if padding == 2 {
                    16
                } else {
                    4
                }
            },
        };
        let r = b - b % bound;
        proof {
            assert(b - b % bound == 0 <==> (b as nat) < bound) by {
                assert(b % bound == b <==> b < bound);
            }
        }
        r
    }
}

/// A partial key handed to the encoders: `odd` nibbles carried right-aligned
/// in `padded`, followed by the full nibble pairs in `bytes`.
pub struct Partial {
    /// How many nibbles `padded` carries (strictly below nibbles-per-byte).
    pub odd: u8,
    /// The byte carrying the odd nibbles, right-aligned.
    pub padded: u8,
    /// The bytes carrying the remaining aligned nibbles.
    pub bytes: Vec<u8>,
}

impl Partial {
    /// A partial key is valid for a radix when its odd-nibble count leaves
    /// room in the carrying byte.
    pub open spec fn valid(self, radix: Radix) -> bool {
        (self.odd as nat) < radix.spec_nibble_per_byte()
    }

    /// Total number of nibbles.
    pub open spec fn spec_nibble_count(self, radix: Radix) -> nat {
        (self.bytes@.len() * radix.spec_nibble_per_byte() + self.odd) as nat
    }

    /// Total number of nibbles.
    pub fn nibble_count(&self, radix: Radix) -> (r: usize)
        requires
            self.spec_nibble_count(radix) <= usize::MAX,
        ensures
            r == self.spec_nibble_count(radix),
    {
        self.bytes.len() * radix.nibble_per_byte() + self.odd as usize
    }

    /// The partial key's nibble data as it stands on the wire: the odd byte
    /// in canonical (masked) form when present, then the aligned bytes.
    pub open spec fn wire(self, radix: Radix) -> Seq<u8> {
        if self.odd > 0 {
            seq![radix.spec_masked_right(self.odd as nat, self.padded)] + self.bytes@
        } else {
            self.bytes@
        }
    }

}

/// Appends the wire form of a partial key to `out`.
pub fn push_partial_wire(p: &Partial, radix: Radix, out: &mut Vec<u8>)
    requires
        p.valid(radix),
    ensures
        final(out)@ == old(out)@ + p.wire(radix),
{
    if p.odd > 0 {
        out.push(radix.masked_right(p.odd, p.padded));
    }
    crate::bytes::push_bytes(out, p.bytes.as_slice());
    proof {
        assert(out@ =~= old(out)@ + p.wire(radix));
    }
}

} // verus!
