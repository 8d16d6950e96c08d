//! Streaming node writers: append-only encoders fed by a trie builder that
//! visits nodes in order, one buffer per node.

use vstd::prelude::*;
use crate::bitmap::{bitmap_bytes, bitmap_val, BitMap16, BitMap4};
use crate::codec_noext::NodeKindNoExt;
use crate::compact::{value_wire, encode_bytes_prefixed};
use crate::hashing::{keccak_of, keccak_256};
use crate::nibble::Radix;
use crate::size_codec::encoded_size_prefix;

verus! {

/// Packs an even-length sequence of expanded nibbles (one nibble value per
/// byte) two to a byte, high nibble first.
pub open spec fn nibble_pairs(ns: Seq<u8>) -> Seq<u8>
    decreases ns.len(),
{
    if ns.len() < 2 {
        Seq::empty()
    } else {
        seq![(ns[0] * 16 + ns[1]) as u8] + nibble_pairs(ns.skip(2))
    }
}

/// Packs a sequence of expanded nibbles: an odd leading nibble keeps a byte
/// of its own, the rest go two to a byte.
pub open spec fn packed_nibbles(ns: Seq<u8>) -> Seq<u8> {
    if ns.len() % 2 == 1 {
        seq![ns[0]] + nibble_pairs(ns.skip(1))
    } else {
        nibble_pairs(ns)
    }
}

/// The wire bytes of a leaf or extension header-plus-key in the extension
/// layout, from expanded nibbles.
pub open spec fn fuse_nibbles_wire(ns: Seq<u8>, leaf: bool) -> Seq<u8> {
    seq![
        ((if leaf {
            1int
        } else {
            128int
        }) + ns.len()) as u8,
    ] + packed_nibbles(ns)
}

/// Packs the expanded nibbles behind a leaf or extension tag byte carrying
/// their count.
pub fn fuse_nibbles_node(nibbles: &[u8], leaf: bool) -> (r: Vec<u8>)
    requires
        nibbles@.len() < 126,
        forall|i: int| 0 <= i < nibbles@.len() ==> nibbles@[i] < 16,
    ensures
        r@ == fuse_nibbles_wire(nibbles@, leaf),
{
    let first_byte: u8 = if leaf {
        1
    } else {
        128
    } + nibbles.len() as u8;
    let mut output: Vec<u8> = Vec::new();
    output.push(first_byte);
    push_packed_nibbles(nibbles, &mut output);
    proof {
        assert(output@ =~= fuse_nibbles_wire(nibbles@, leaf));
    }
    output
}

/// Packs the expanded nibbles behind a no-extension header of the given
/// kind; a count beyond the bound is truncated in the header while every
/// nibble is still emitted.
pub fn fuse_nibbles_node_no_extension(nibbles: &[u8], kind: &NodeKindNoExt) -> (r: Vec<u8>)
    requires
        forall|i: int| 0 <= i < nibbles@.len() ==> nibbles@[i] < 16,
    ensures
        r@ == encoded_size_prefix(nibbles@.len(), kind.mask()) + packed_nibbles(nibbles@),
{
    proof {
        crate::header::lemma_noext_masks_are_tags();
    }
    let mut output: Vec<u8> = Vec::new();
    match kind {
        NodeKindNoExt::Leaf => crate::size_codec::encode_size_and_prefix(
            nibbles.len(),
            64,
            &mut output,
        ),
        NodeKindNoExt::BranchNoValue => crate::size_codec::encode_size_and_prefix(
            nibbles.len(),
            128,
            &mut output,
        ),
        NodeKindNoExt::BranchWithValue => crate::size_codec::encode_size_and_prefix(
            nibbles.len(),
            192,
            &mut output,
        ),
    }
    push_packed_nibbles(nibbles, &mut output);
    proof {
        assert(output@ =~= encoded_size_prefix(nibbles@.len(), kind.mask()) + packed_nibbles(
            nibbles@,
        ));
    }
    output
}

/// Appends the packed form of the expanded nibbles to `out`.
fn push_packed_nibbles(nibbles: &[u8], out: &mut Vec<u8>)
    requires
        forall|i: int| 0 <= i < nibbles@.len() ==> nibbles@[i] < 16,
    ensures
        final(out)@ == old(out)@ + packed_nibbles(nibbles@),
{
    let ghost target = old(out)@ + packed_nibbles(nibbles@);
    let odd = nibbles.len() % 2;
    if odd == 1 {
        out.push(nibbles[0]);
    }
    let mut i: usize = odd;
    proof {
        if odd == 0 {
            assert(nibbles@.skip(0) =~= nibbles@);
        }
        assert(out@ + nibble_pairs(nibbles@.skip(odd as int)) =~= target);
    }
    while i < nibbles.len()
        invariant
            odd == nibbles@.len() % 2,
            odd <= i <= nibbles@.len(),
            (nibbles@.len() - i) % 2 == 0,
            forall|t: int| 0 <= t < nibbles@.len() ==> nibbles@[t] < 16,
            out@ + nibble_pairs(nibbles@.skip(i as int)) == target,
        decreases nibbles@.len() - i,
    {
        proof {
            assert(nibbles@.skip(i as int).len() >= 2);
            assert(nibbles@.skip(i as int)[0] == nibbles@[i as int]);
            assert(nibbles@.skip(i as int)[1] == nibbles@[i as int + 1]);
            assert(nibbles@.skip(i as int).skip(2) =~= nibbles@.skip(i as int + 2));
        }
        let packed = nibbles[i] * 16 + nibbles[i + 1];
        out.push(packed);
        proof {
            assert(out@ + nibble_pairs(nibbles@.skip(i as int + 2)) =~= target);
        }
        i += 2;
    }
    proof {
        assert(nibble_pairs(nibbles@.skip(nibbles@.len() as int)) =~= Seq::<u8>::empty());
        assert(out@ =~= target);
    }
}

/// The low and high byte of the 16-ary child bitmap built from the flags.
pub fn branch_node_bit_mask(has_children: &[bool]) -> (r: (u8, u8))
    requires
        has_children@.len() <= 16,
    ensures
        ({
            let v = bitmap_val(has_children@);
            r.0 == v % 256 && r.1 == v / 256
        }),
{
    let bytes = BitMap16::encode(has_children);
    proof {
        crate::bitmap::lemma_bitmap_val_bound(has_children@);
        vstd::arithmetic::power2::lemma2_to64();
        if has_children@.len() < 16 {
            vstd::arithmetic::power2::lemma_pow2_strictly_increases(has_children@.len(), 16);
        }
    }
    (bytes[0], bytes[1])
}

/// A branch header: the value-presence tag byte followed by the child
/// bitmap.
pub fn branch_node_buffered(has_value: bool, has_children: &[bool], radix: Radix) -> (r: Vec<u8>)
    requires
        has_children@.len() <= radix.spec_nibble_length(),
    ensures
        r@ == seq![
            (if has_value {
                255u8
            } else {
                254u8
            }),
        ] + bitmap_bytes(has_children@, radix),
{
    let first: u8 = if has_value {
        255
    } else {
        254
    };
    let mut output: Vec<u8> = Vec::new();
    output.push(first);
    let bitmap = match radix {
        Radix::Sixteen => BitMap16::encode(has_children),
        Radix::Four => BitMap4::encode(has_children),
    };
    crate::bytes::push_bytes(&mut output, bitmap.as_slice());
    proof {
        assert(output@ =~= seq![
            (if has_value {
                255u8
            } else {
                254u8
            }),
        ] + bitmap_bytes(has_children@, radix));
    }
    output
}

/// The three fixed bytes that open an extension-layout branch: the
/// value-presence tag and the two 16-ary bitmap bytes.
pub fn branch_node(has_value: bool, has_children: &[bool]) -> (r: Vec<u8>)
    requires
        has_children@.len() <= 16,
    ensures
        r@ == seq![
            (if has_value {
                255u8
            } else {
                254u8
            }),
        ] + bitmap_bytes(has_children@, Radix::Sixteen),
        r@.len() == 3,
{
    branch_node_buffered(has_value, has_children, Radix::Sixteen)
}

/// A streaming node writer for the extension layout.
pub struct ReferenceTrieStream {
    buffer: Vec<u8>,
}

impl View for ReferenceTrieStream {
    type V = Seq<u8>;

    closed spec fn view(&self) -> Seq<u8> {
        self.buffer@
    }
}

impl ReferenceTrieStream {
    /// A fresh, empty stream.
    pub fn new() -> (r: Self)
        ensures
            r@ == Seq::<u8>::empty(),
    {
        ReferenceTrieStream { buffer: Vec::new() }
    }

    /// Appends the empty node's one-byte encoding.
    pub fn append_empty_data(&mut self)
        ensures
            final(self)@ == old(self)@ + seq![0u8],
    {
        self.buffer.push(0);
        proof {
            assert(self.buffer@ =~= old(self)@ + seq![0u8]);
        }
    }

    /// Appends a leaf: fused header and key nibbles, then the value,
    /// length-prefixed.
    pub fn append_leaf(&mut self, key: &[u8], value: &[u8])
        requires
            key@.len() < 126,
            forall|i: int| 0 <= i < key@.len() ==> key@[i] < 16,
            value@.len() <= u32::MAX,
        ensures
            final(self)@ == old(self)@ + fuse_nibbles_wire(key@, true) + value_wire(value@),
    {
        let fused = fuse_nibbles_node(key, true);
        crate::bytes::push_bytes(&mut self.buffer, fused.as_slice());
        encode_bytes_prefixed(value, &mut self.buffer);
        proof {
            assert(self.buffer@ =~= old(self)@ + fuse_nibbles_wire(key@, true) + value_wire(
                value@,
            ));
        }
    }

    /// Opens a branch: the tag-and-bitmap prefix, then (should a partial key
    /// reach this layout's branches) the fused key, then the value when
    /// present, length-prefixed.
    pub fn begin_branch(
        &mut self,
        maybe_key: Option<&[u8]>,
        maybe_value: Option<&[u8]>,
        has_children: &[bool],
    )
        requires
            has_children@.len() <= 16,
            maybe_key matches Some(k) ==> k@.len() < 126 && forall|i: int|
                0 <= i < k@.len() ==> k@[i] < 16,
            maybe_value matches Some(v) ==> v@.len() <= u32::MAX,
        ensures
            final(self)@ == old(self)@ + seq![
                (if maybe_value is Some {
                    255u8
                } else {
                    254u8
                }),
            ] + bitmap_bytes(has_children@, Radix::Sixteen) + (match maybe_key {
                Some(k) => fuse_nibbles_wire(k@, false),
                None => Seq::<u8>::empty(),
            }) + (match maybe_value {
                Some(v) => value_wire(v@),
                None => Seq::<u8>::empty(),
            }),
    {
        let header = branch_node(maybe_value.is_some(), has_children);
        crate::bytes::push_bytes(&mut self.buffer, header.as_slice());
        match maybe_key {
            Some(partial) => {
                let fused = fuse_nibbles_node(partial, false);
                crate::bytes::push_bytes(&mut self.buffer, fused.as_slice());
            },
            None => {},
        }
        match maybe_value {
            Some(value) => encode_bytes_prefixed(value, &mut self.buffer),
            None => {},
        }
        proof {
            assert(self.buffer@ =~= old(self)@ + seq![
                (if maybe_value is Some {
                    255u8
                } else {
                    254u8
                }),
            ] + bitmap_bytes(has_children@, Radix::Sixteen) + (match maybe_key {
                Some(k) => fuse_nibbles_wire(k@, false),
                None => Seq::<u8>::empty(),
            }) + (match maybe_value {
                Some(v) => value_wire(v@),
                None => Seq::<u8>::empty(),
            }));
        }
    }

    /// Appends an extension: fused header and key nibbles.
    pub fn append_extension(&mut self, key: &[u8])
        requires
            key@.len() < 126,
            forall|i: int| 0 <= i < key@.len() ==> key@[i] < 16,
        ensures
            final(self)@ == old(self)@ + fuse_nibbles_wire(key@, false),
    {
        let fused = fuse_nibbles_node(key, false);
        crate::bytes::push_bytes(&mut self.buffer, fused.as_slice());
    }

    /// Appends a finished child stream: short encodings go in whole, longer
    /// ones by their hash — either way length-prefixed.
    pub fn append_substream(&mut self, other: Self)
        ensures
            other@.len() <= 31 ==> final(self)@ == old(self)@ + value_wire(other@),
            other@.len() > 31 ==> final(self)@ == old(self)@ + value_wire(keccak_of(other@)),
    {
        let data = other.out();
        if data.len() <= 31 {
            encode_bytes_prefixed(data.as_slice(), &mut self.buffer);
        } else {
            let hash = keccak_256(data.as_slice());
            encode_bytes_prefixed(hash.as_slice(), &mut self.buffer);
        }
    }

    /// The finished node bytes.
    pub fn out(self) -> (r: Vec<u8>)
        ensures
            r@ == self@,
    {
        self.buffer
    }
}

/// A streaming node writer for the no-extension layout.
pub struct ReferenceTrieStreamNoExt {
    buffer: Vec<u8>,
}

impl View for ReferenceTrieStreamNoExt {
    type V = Seq<u8>;

    closed spec fn view(&self) -> Seq<u8> {
        self.buffer@
    }
}

impl ReferenceTrieStreamNoExt {
    /// A fresh, empty stream.
    pub fn new() -> (r: Self)
        ensures
            r@ == Seq::<u8>::empty(),
    {
        ReferenceTrieStreamNoExt { buffer: Vec::new() }
    }

    /// Appends the empty node's one-byte encoding.
    pub fn append_empty_data(&mut self)
        ensures
            final(self)@ == old(self)@ + seq![0u8],
    {
        self.buffer.push(0);
        proof {
            assert(self.buffer@ =~= old(self)@ + seq![0u8]);
        }
    }

    /// Appends a leaf: no-extension header and packed key nibbles, then the
    /// value, length-prefixed.
    pub fn append_leaf(&mut self, key: &[u8], value: &[u8])
        requires
            forall|i: int| 0 <= i < key@.len() ==> key@[i] < 16,
            value@.len() <= u32::MAX,
        ensures
            final(self)@ == old(self)@ + encoded_size_prefix(key@.len(), 64) + packed_nibbles(key@)
                + value_wire(value@),
    {
        let fused = fuse_nibbles_node_no_extension(key, &NodeKindNoExt::Leaf);
        crate::bytes::push_bytes(&mut self.buffer, fused.as_slice());
        encode_bytes_prefixed(value, &mut self.buffer);
        proof {
            assert(self.buffer@ =~= old(self)@ + encoded_size_prefix(key@.len(), 64)
                + packed_nibbles(key@) + value_wire(value@));
        }
    }

    /// Opens a branch. With a partial key the no-extension header carries
    /// the key and the 16-ary bitmap follows it; without one (which the
    /// builder never produces for this layout) the extension-layout prefix
    /// is emitted. The value, when present, comes last, length-prefixed.
    pub fn begin_branch(
        &mut self,
        maybe_key: Option<&[u8]>,
        maybe_value: Option<&[u8]>,
        has_children: &[bool],
    )
        requires
            has_children@.len() <= 16,
            maybe_key matches Some(k) ==> forall|i: int| 0 <= i < k@.len() ==> k@[i] < 16,
            maybe_value matches Some(v) ==> v@.len() <= u32::MAX,
        ensures
            final(self)@ == old(self)@ + (match maybe_key {
                Some(k) => encoded_size_prefix(
                    k@.len(),
                    if maybe_value is Some {
                        192
                    } else {
                        128
                    },
                ) + packed_nibbles(k@) + bitmap_bytes(has_children@, Radix::Sixteen),
                None => seq![
                    (if maybe_value is Some {
                        255u8
                    } else {
                        254u8
                    }),
                ] + bitmap_bytes(has_children@, Radix::Sixteen),
            }) + (match maybe_value {
                Some(v) => value_wire(v@),
                None => Seq::<u8>::empty(),
            }),
    {
        match maybe_key {
            Some(partial) => {
                let fused = if maybe_value.is_some() {
                    fuse_nibbles_node_no_extension(partial, &NodeKindNoExt::BranchWithValue)
                } else {
                    fuse_nibbles_node_no_extension(partial, &NodeKindNoExt::BranchNoValue)
                };
                crate::bytes::push_bytes(&mut self.buffer, fused.as_slice());
                let bitmap = branch_node_bit_mask(has_children);
                self.buffer.push(bitmap.0);
                self.buffer.push(bitmap.1);
            },
            None => {
                let header = branch_node(maybe_value.is_some(), has_children);
                crate::bytes::push_bytes(&mut self.buffer, header.as_slice());
            },
        }
        match maybe_value {
            Some(value) => encode_bytes_prefixed(value, &mut self.buffer),
            None => {},
        }
        proof {
            assert(self.buffer@ =~= old(self)@ + (match maybe_key {
                Some(k) => encoded_size_prefix(
                    k@.len(),
                    if maybe_value is Some {
                        192
                    } else {
                        128
                    },
                ) + packed_nibbles(k@) + bitmap_bytes(has_children@, Radix::Sixteen),
                None => seq![
                    (if maybe_value is Some {
                        255u8
                    } else {
                        254u8
                    }),
                ] + bitmap_bytes(has_children@, Radix::Sixteen),
            }) + (match maybe_value {
                Some(v) => value_wire(v@),
                None => Seq::<u8>::empty(),
            }));
        }
    }

    /// Extensions do not exist in this layout: appending one writes nothing.
    pub fn append_extension(&mut self, _key: &[u8])
        ensures
            final(self)@ == old(self)@,
    {
    }

    /// Appends a finished child stream: short encodings go in whole, longer
    /// ones by their hash — either way length-prefixed.
    pub fn append_substream(&mut self, other: Self)
        ensures
            other@.len() <= 31 ==> final(self)@ == old(self)@ + value_wire(other@),
            other@.len() > 31 ==> final(self)@ == old(self)@ + value_wire(keccak_of(other@)),
    {
        let data = other.out();
        if data.len() <= 31 {
            encode_bytes_prefixed(data.as_slice(), &mut self.buffer);
        } else {
            let hash = keccak_256(data.as_slice());
            encode_bytes_prefixed(hash.as_slice(), &mut self.buffer);
        }
    }

    /// The finished node bytes.
    pub fn out(self) -> (r: Vec<u8>)
        ensures
            r@ == self@,
    {
        self.buffer
    }
}

} // verus!
