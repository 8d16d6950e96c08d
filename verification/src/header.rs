//! Node header codecs for the two layouts.
//!
//! The extension layout packs node kind and nibble count into a single byte
//! that partitions the byte value space. The no-extension layout keeps the
//! kind in the top two bits of the first byte and carries the nibble count
//! through the variable-length size codec.

use vstd::prelude::*;
use crate::size_codec::{
    encoded_size_prefix,
    decode_size_spec,
    encode_size_and_prefix,
    decode_size,
    lemma_size_round_trip,
};

verus! {

/// The one-byte encoding of an empty node (extension layout).
pub const EMPTY_TRIE: u8 = 0;

/// First tag byte of the extension layout's leaf range.
pub const LEAF_NODE_OFFSET: u8 = 1;

/// First tag byte of the extension layout's extension range.
pub const EXTENSION_NODE_OFFSET: u8 = 128;

/// Tag byte of a branch without a value (extension layout).
pub const BRANCH_NODE_NO_VALUE: u8 = 254;

/// Tag byte of a branch with a value (extension layout).
pub const BRANCH_NODE_WITH_VALUE: u8 = 255;

/// One past the largest nibble count a leaf tag can carry.
pub const LEAF_NODE_OVER: u8 = 127;

/// One past the largest nibble count an extension tag can carry.
pub const EXTENSION_NODE_OVER: u8 = 126;

/// The one-byte encoding of an empty node (no-extension layout).
pub const EMPTY_TRIE_NO_EXT: u8 = 0;

/// Top-bits tag of a no-extension leaf header.
pub const LEAF_PREFIX_MASK_NO_EXT: u8 = 64;

/// Top-bits tag of a no-extension branch-without-value header.
pub const BRANCH_WITHOUT_MASK_NO_EXT: u8 = 128;

/// Top-bits tag of a no-extension branch-with-value header.
pub const BRANCH_WITH_MASK_NO_EXT: u8 = 192;

/// A node header in the extension layout.
#[derive(Copy, Clone, PartialEq, Eq, Debug, Structural)]
pub enum NodeHeader {
    /// The empty node.
    Null,
    /// A branch; the flag says whether it carries a value.
    Branch(bool),
    /// An extension carrying this many nibbles.
    Extension(usize),
    /// A leaf carrying this many nibbles.
    Leaf(usize),
}

impl NodeHeader {
    /// The nibble counts a single-byte tag can carry.
    pub open spec fn valid(self) -> bool {
        match self {
            NodeHeader::Null => true,
            NodeHeader::Branch(_) => true,
            NodeHeader::Extension(c) => c < 126,
            NodeHeader::Leaf(c) => c < 127,
        }
    }

    /// The header's single tag byte.
    pub open spec fn bytes(self) -> Seq<u8> {
        match self {
            NodeHeader::Null => seq![0u8],
            NodeHeader::Branch(true) => seq![255u8],
            NodeHeader::Branch(false) => seq![254u8],
            NodeHeader::Leaf(c) => seq![(1 + c) as u8],
            NodeHeader::Extension(c) => seq![(128 + c) as u8],
        }
    }

    /// Appends the tag byte to `out`.
    pub fn encode_to(&self, out: &mut Vec<u8>)
        requires
            self.valid(),
        ensures
            final(out)@ == old(out)@ + self.bytes(),
    {
        match self {
            NodeHeader::Null => out.push(EMPTY_TRIE),
            NodeHeader::Branch(true) => out.push(BRANCH_NODE_WITH_VALUE),
            NodeHeader::Branch(false) => out.push(BRANCH_NODE_NO_VALUE),
            NodeHeader::Leaf(c) => out.push(LEAF_NODE_OFFSET + *c as u8),
            NodeHeader::Extension(c) => out.push(EXTENSION_NODE_OFFSET + *c as u8),
        }
    }
}

/// What any tag byte means: the ranges partition the byte space, so every
/// byte decodes to some header.
pub open spec fn decode_header_ext(b: u8) -> NodeHeader {
    if b == 0 {
        NodeHeader::Null
    } else if b == 254 {
        NodeHeader::Branch(false)
    } else if b == 255 {
        NodeHeader::Branch(true)
    } else if b < 128 {
        NodeHeader::Leaf((b - 1) as usize)
    } else {
        NodeHeader::Extension((b - 128) as usize)
    }
}

impl NodeHeader {
    /// Reads the tag byte at `pos`; fails only on a short input.
    pub fn decode(data: &[u8], pos: usize) -> (r: Option<(NodeHeader, usize)>)
        requires
            pos <= data@.len(),
        ensures
            pos < data@.len() ==> r == Some(((decode_header_ext(data@[pos as int]), (pos
                + 1) as usize))),
            pos == data@.len() ==> r == None::<(NodeHeader, usize)>,
    {
        if pos >= data.len() {
            return None;
        }
        let b = data[pos];
        let h = if b == EMPTY_TRIE {
            NodeHeader::Null
        } else if b == BRANCH_NODE_NO_VALUE {
            NodeHeader::Branch(false)
        } else if b == BRANCH_NODE_WITH_VALUE {
            NodeHeader::Branch(true)
        } else if b < EXTENSION_NODE_OFFSET {
            NodeHeader::Leaf((b - LEAF_NODE_OFFSET) as usize)
        } else {
            NodeHeader::Extension((b - EXTENSION_NODE_OFFSET) as usize)
        };
        Some((h, pos + 1))
    }
}

/// Decoding a valid extension-layout header's tag byte yields it back.
pub proof fn lemma_header_ext_round_trip(h: NodeHeader)
    requires
        h.valid(),
    ensures
        decode_header_ext(h.bytes()[0]) == h,
{
}

/// A node header in the no-extension layout.
#[derive(Copy, Clone, PartialEq, Eq, Debug, Structural)]
pub enum NodeHeaderNoExt {
    /// The empty node.
    Null,
    /// A branch carrying this many nibbles; the flag says whether it also
    /// carries a value.
    Branch(bool, usize),
    /// A leaf carrying this many nibbles.
    Leaf(usize),
}

impl NodeHeaderNoExt {
    /// Whether the carried count is within the layout's bound, so that
    /// encoding does not truncate it.
    pub open spec fn valid(self) -> bool {
        match self {
            NodeHeaderNoExt::Null => true,
            NodeHeaderNoExt::Branch(_, c) => c <= 65535,
            NodeHeaderNoExt::Leaf(c) => c <= 65535,
        }
    }

    /// The header's bytes: a kind tag in the top two bits of the first byte,
    /// the nibble count in the remaining bits via the size codec.
    pub open spec fn bytes(self) -> Seq<u8> {
        match self {
            NodeHeaderNoExt::Null => seq![0u8],
            NodeHeaderNoExt::Leaf(c) => encoded_size_prefix(c as nat, 64),
            NodeHeaderNoExt::Branch(false, c) => encoded_size_prefix(c as nat, 128),
            NodeHeaderNoExt::Branch(true, c) => encoded_size_prefix(c as nat, 192),
        }
    }

    /// Appends the header bytes to `out`, truncating the count at the bound.
    pub fn encode_to(&self, out: &mut Vec<u8>)
        ensures
            final(out)@ == old(out)@ + self.bytes(),
    {
        proof {
            lemma_noext_masks_are_tags();
        }
        match self {
            NodeHeaderNoExt::Null => out.push(EMPTY_TRIE_NO_EXT),
            NodeHeaderNoExt::Leaf(c) => encode_size_and_prefix(*c, LEAF_PREFIX_MASK_NO_EXT, out),
            NodeHeaderNoExt::Branch(false, c) => encode_size_and_prefix(
                *c,
                BRANCH_WITHOUT_MASK_NO_EXT,
                out,
            ),
            NodeHeaderNoExt::Branch(true, c) => encode_size_and_prefix(
                *c,
                BRANCH_WITH_MASK_NO_EXT,
                out,
            ),
        }
    }
}

/// What decoding yields from the header bytes at the front of `data`: the
/// header and the bytes consumed. A zero first byte is the empty node; a
/// nonzero byte whose top two bits are clear is a format error.
pub open spec fn decode_header_noext_spec(data: Seq<u8>) -> Option<(NodeHeaderNoExt, nat)> {
    if data.len() == 0 {
        None
    } else {
        let b = data[0];
        if b == 0 {
            Some((NodeHeaderNoExt::Null, 1nat))
        } else if b / 64 == 0 {
            None
        } else {
            match decode_size_spec(b, data.skip(1)) {
                None => None,
                Some((v, k)) => Some(
                    (
                        (
                        if b / 64 == 1 {
                            NodeHeaderNoExt::Leaf(v as usize)
                        } else if b / 64 == 2 {
                            NodeHeaderNoExt::Branch(false, v as usize)
                        } else {
                            NodeHeaderNoExt::Branch(true, v as usize)
                        },
                        (k + 1) as nat)
                    ),
                ),
            }
        }
    }
}

impl NodeHeaderNoExt {
    /// Reads a no-extension header starting at `pos`; on success the
    /// returned position is the first byte after the header.
    pub fn decode(data: &[u8], pos: usize) -> (r: Option<(NodeHeaderNoExt, usize)>)
        requires
            pos <= data@.len(),
        ensures
            match decode_header_noext_spec(data@.skip(pos as int)) {
                Some((h, k)) => r == Some(((h, (pos + k) as usize))) && pos + k <= data@.len(),
                None => r == None::<(NodeHeaderNoExt, usize)>,
            },
    {
        proof {
            if pos < data@.len() {
                assert(data@.skip(pos as int)[0] == data@[pos as int]);
                assert(data@.skip(pos as int).skip(1) =~= data@.skip(pos as int + 1));
            }
        }
        if pos >= data.len() {
            return None;
        }
        let b = data[pos];
        if b == EMPTY_TRIE_NO_EXT {
            return Some((NodeHeaderNoExt::Null, pos + 1));
        }
        let kind = b / 64;
        if kind == 0 {
            return None;
        }
        match decode_size(b, data, pos + 1) {
            None => None,
            Some((v, new_pos)) => {
                if kind == 1 {
                    Some((NodeHeaderNoExt::Leaf(v), new_pos))
                } else if kind == 2 {
                    Some((NodeHeaderNoExt::Branch(false, v), new_pos))
                } else {
                    Some((NodeHeaderNoExt::Branch(true, v), new_pos))
                }
            },
        }
    }
}

/// The three kind tags sit in the top two bits of a byte.
pub proof fn lemma_noext_masks_are_tags()
    by (bit_vector)
    ensures
        64u8 & 192 == 64,
        128u8 & 192 == 128,
        192u8 & 192 == 192,
{
}

/// A byte whose top two bits hold the nonzero tag `m` is nonzero and names
/// the same kind as `m` does.
proof fn lemma_tag_kind(b: u8, m: u8)
    by (bit_vector)
    requires
        b & 192 == m,
        m == 64 || m == 128 || m == 192,
    ensures
        b / 64 == m / 64,
        b != 0,
{
}

/// Decoding inverts encoding for any valid no-extension header, whatever
/// follows the header bytes.
pub proof fn lemma_header_noext_round_trip(h: NodeHeaderNoExt, rest: Seq<u8>)
    requires
        h.valid(),
    ensures
        decode_header_noext_spec(h.bytes() + rest) == Some((h, h.bytes().len())),
{
    let data = h.bytes() + rest;
    lemma_noext_masks_are_tags();
    match h {
        NodeHeaderNoExt::Null => {
            assert(data[0] == 0);
        },
        NodeHeaderNoExt::Leaf(c) => {
            lemma_size_round_trip(c as nat, 64, rest);
            lemma_tag_kind(data[0], 64);
            assert(data.skip(1) =~= h.bytes().skip(1) + rest);
        },
        NodeHeaderNoExt::Branch(false, c) => {
            lemma_size_round_trip(c as nat, 128, rest);
            lemma_tag_kind(data[0], 128);
            assert(data.skip(1) =~= h.bytes().skip(1) + rest);
        },
        NodeHeaderNoExt::Branch(true, c) => {
            lemma_size_round_trip(c as nat, 192, rest);
            lemma_tag_kind(data[0], 192);
            assert(data.skip(1) =~= h.bytes().skip(1) + rest);
        },
    }
}

} // verus!
