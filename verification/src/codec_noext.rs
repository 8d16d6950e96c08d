//! Node codec for the no-extension layout: headers built on the size codec,
//! shared key prefixes folded into branch and leaf nodes, and padding-bit
//! validation on decode.

use vstd::prelude::*;
use vstd::arithmetic::div_mod::{lemma_mod_multiples_vanish, lemma_small_mod};
use crate::bitmap::{bitmap_bytes, bitmap_val, lemma_bitmap_val_bit, lemma_bitmap_round_trip,
    BitMap16, BitMap4};
use crate::bytes::{push_bytes, take_vec};
use crate::children::{decode_bitmap_spec, decode_branch_body_spec, decode_key_range_spec,
    decode_bitmap, decode_branch_body, decode_key_range};
use crate::codec_ext::{child_refs_model, nibble_bytes_len, nibble_bytes_count,
    lemma_nibble_bytes_of_partial};
use crate::compact::{value_wire, encode_bytes_prefixed};
use crate::errors::ReferenceError;
use crate::hashing::{keccak_of, keccak_256};
use crate::header::{decode_header_noext_spec, lemma_header_noext_round_trip, NodeHeaderNoExt};
use crate::nibble::{Partial, Radix};
use crate::node::{children_wire, present_flags, ChildReference, NibbleData, NibblesModel, Node,
    NodeModel};
use crate::size_codec::encoded_size_prefix;

verus! {

/// The node kinds the no-extension layout encodes with a partial key.
pub enum NodeKindNoExt {
    /// A leaf.
    Leaf,
    /// A branch without a value.
    BranchNoValue,
    /// A branch with a value.
    BranchWithValue,
}

impl NodeKindNoExt {
    /// The kind's 2-bit header tag, in the top bits of a byte.
    pub open spec fn mask(self) -> u8 {
        match self {
            NodeKindNoExt::Leaf => 64,
            NodeKindNoExt::BranchNoValue => 128,
            NodeKindNoExt::BranchWithValue => 192,
        }
    }

    /// The header this kind gives a node of `c` nibbles.
    pub open spec fn header(self, c: nat) -> NodeHeaderNoExt {
        let bounded: nat = if c > 65535 {
            65535nat
        } else {
            c
        };
        match self {
            NodeKindNoExt::Leaf => NodeHeaderNoExt::Leaf(bounded as usize),
            NodeKindNoExt::BranchNoValue => NodeHeaderNoExt::Branch(false, bounded as usize),
            NodeKindNoExt::BranchWithValue => NodeHeaderNoExt::Branch(true, bounded as usize),
        }
    }
}

/// Emits a no-extension header for the kind (the count truncated at the
/// bound) followed by the partial key's wire bytes — all of them, even when
/// the count was truncated.
pub fn partial_encode(partial: &Partial, node_kind: &NodeKindNoExt, radix: Radix) -> (r: Vec<u8>)
    requires
        partial.valid(radix),
        partial.spec_nibble_count(radix) <= usize::MAX,
    ensures
        r@ == encoded_size_prefix(partial.spec_nibble_count(radix), node_kind.mask())
            + partial.wire(radix),
{
    let nibble_count = partial.nibble_count(radix);
    proof {
        crate::header::lemma_noext_masks_are_tags();
    }
    let mut output: Vec<u8> = Vec::new();
    match node_kind {
        NodeKindNoExt::Leaf => crate::size_codec::encode_size_and_prefix(nibble_count, 64, &mut output),
        NodeKindNoExt::BranchNoValue => crate::size_codec::encode_size_and_prefix(
            nibble_count,
            128,
            &mut output,
        ),
        NodeKindNoExt::BranchWithValue => crate::size_codec::encode_size_and_prefix(
            nibble_count,
            192,
            &mut output,
        ),
    }
    crate::nibble::push_partial_wire(partial, radix, &mut output);
    proof {
        assert(output@ =~= encoded_size_prefix(partial.spec_nibble_count(radix), node_kind.mask())
            + partial.wire(radix));
    }
    output
}

/// Emits a no-extension header for the kind followed by the given, already
/// packed, partial key bytes.
pub fn partial_from_iterator_encode(
    partial: &[u8],
    nibble_count: usize,
    node_kind: &NodeKindNoExt,
) -> (r: Vec<u8>)
    ensures
        r@ == encoded_size_prefix(nibble_count as nat, node_kind.mask()) + partial@,
{
    proof {
        crate::header::lemma_noext_masks_are_tags();
    }
    let mut output: Vec<u8> = Vec::new();
    match node_kind {
        NodeKindNoExt::Leaf => crate::size_codec::encode_size_and_prefix(nibble_count, 64, &mut output),
        NodeKindNoExt::BranchNoValue => crate::size_codec::encode_size_and_prefix(
            nibble_count,
            128,
            &mut output,
        ),
        NodeKindNoExt::BranchWithValue => crate::size_codec::encode_size_and_prefix(
            nibble_count,
            192,
            &mut output,
        ),
    }
    push_bytes(&mut output, partial);
    proof {
        assert(output@ =~= encoded_size_prefix(nibble_count as nat, node_kind.mask()) + partial@);
    }
    output
}

/// The wire bytes of a no-extension leaf: the header carrying the (bounded)
/// nibble count, the key's nibble bytes, the value length-prefixed.
pub open spec fn leaf_node_noext_wire(p: Partial, value: Seq<u8>, radix: Radix) -> Seq<u8> {
    encoded_size_prefix(p.spec_nibble_count(radix), 64) + p.wire(radix) + value_wire(value)
}

/// The wire bytes of a nibbled branch: the header carrying the (bounded)
/// nibble count, the key bytes, the child bitmap, the value (when present)
/// length-prefixed, then every present child in slot order.
pub open spec fn branch_node_nibbled_wire(
    partial_bytes: Seq<u8>,
    c: nat,
    children: Seq<Option<Seq<u8>>>,
    value: Option<Seq<u8>>,
    radix: Radix,
) -> Seq<u8> {
    encoded_size_prefix(
        c,
        if value is Some {
            192
        } else {
            128
        },
    ) + partial_bytes + bitmap_bytes(present_flags(children), radix) + (match value {
        Some(v) => value_wire(v),
        None => Seq::empty(),
    }) + children_wire(children)
}

/// The no-extension node codec.
pub struct ReferenceNodeCodecNoExt;

impl ReferenceNodeCodecNoExt {
    /// The empty node's encoding.
    pub fn empty_node() -> (r: Vec<u8>)
        ensures
            r@ == seq![0u8],
    {
        let mut out: Vec<u8> = Vec::new();
        out.push(0);
        proof {
            assert(out@ =~= seq![0u8]);
        }
        out
    }

    /// Whether `data` is exactly the empty node's encoding.
    pub fn is_empty_node(data: &[u8]) -> (r: bool)
        ensures
            r <==> data@ == seq![0u8],
    {
        proof {
            if data@.len() == 1 && data@[0] == 0 {
                assert(data@ =~= seq![0u8]);
            }
        }
        data.len() == 1 && data[0] == 0
    }

    /// The hash of the empty node's encoding.
    pub fn hashed_null_node() -> (r: Vec<u8>)
        ensures
            r@ == keccak_of(seq![0u8]),
            r@.len() == 32,
    {
        let empty = Self::empty_node();
        keccak_256(empty.as_slice())
    }

    /// Reads a child hash back from a stored range: a range is a hash exactly
    /// when its width is the hash width.
    pub fn try_decode_hash(data: &[u8], hash_len: usize) -> (r: Option<Vec<u8>>)
        ensures
            match r {
                Some(h) => data@.len() == hash_len && h@ == data@,
                None => data@.len() != hash_len,
            },
    {
        crate::codec_ext::ReferenceNodeCodec::try_decode_hash(data, hash_len)
    }

    /// Encodes a leaf node. A nibble count beyond the bound is truncated in
    /// the header while all key bytes are still emitted.
    pub fn leaf_node(partial: &Partial, value: &[u8], radix: Radix) -> (r: Vec<u8>)
        requires
            partial.valid(radix),
            partial.spec_nibble_count(radix) <= usize::MAX,
            value@.len() <= u32::MAX,
        ensures
            r@ == leaf_node_noext_wire(*partial, value@, radix),
    {
        let mut output = partial_encode(partial, &NodeKindNoExt::Leaf, radix);
        encode_bytes_prefixed(value, &mut output);
        proof {
            assert(output@ =~= leaf_node_noext_wire(*partial, value@, radix));
        }
        output
    }

    /// Encodes a branch node that carries its own partial key: header and
    /// key first, then the reserved bitmap area, the value, the present
    /// children, and finally the bitmap spliced back in.
    pub fn branch_node_nibbled(
        partial: &[u8],
        number_nibble: usize,
        children: &Vec<Option<ChildReference>>,
        maybe_value: &Option<Vec<u8>>,
        radix: Radix,
    ) -> (r: Vec<u8>)
        requires
            children@.len() == radix.spec_nibble_length(),
            forall|i: int|
                0 <= i < children@.len() ==> (#[trigger] children@[i] matches Some(c)
                    ==> c.bytes().len() <= u32::MAX),
            maybe_value matches Some(v) ==> v@.len() <= u32::MAX,
        ensures
            r@ == branch_node_nibbled_wire(
                partial@,
                number_nibble as nat,
                child_refs_model(children@),
                maybe_value.deep_view(),
                radix,
            ),
    {
        let ghost model = child_refs_model(children@);
        let mut output = match maybe_value {
            Some(_) => partial_from_iterator_encode(
                partial,
                number_nibble,
                &NodeKindNoExt::BranchWithValue,
            ),
            None => partial_from_iterator_encode(
                partial,
                number_nibble,
                &NodeKindNoExt::BranchNoValue,
            ),
        };
        let ghost head = output@;
        let bitmap_index = output.len();
        let bitmap_len = radix.bitmap_len();
        let mut j: usize = 0;
        while j < bitmap_len
            invariant
                bitmap_len <= 2,
                j <= bitmap_len,
                output@ =~= head + Seq::<u8>::new(j as nat, |k: int| 0u8),
            decreases bitmap_len - j,
        {
            output.push(0);
            j += 1;
        }
        let ghost reserved = Seq::<u8>::new(bitmap_len as nat, |k: int| 0u8);
        let have_value = match maybe_value {
            Some(value) => {
                encode_bytes_prefixed(value.as_slice(), &mut output);
                true
            },
            None => false,
        };
        let ghost value_part = output@.skip((head.len() + bitmap_len) as int);
        let mut flags: Vec<bool> = Vec::new();
        let mut i: usize = 0;
        while i < children.len()
            invariant
                i <= children@.len(),
                model == child_refs_model(children@),
                model.len() == children@.len(),
                flags@ =~= present_flags(model.take(i as int)),
                flags@.len() == i,
                output@ =~= head + reserved + value_part + children_wire(model.take(i as int)),
                forall|t: int|
                    0 <= t < children@.len() ==> (#[trigger] children@[t] matches Some(c)
                        ==> c.bytes().len() <= u32::MAX),
            decreases children@.len() - i,
        {
            match &children[i] {
                Some(child) => {
                    encode_bytes_prefixed(child.as_slice(), &mut output);
                    flags.push(true);
                },
                None => {
                    flags.push(false);
                },
            }
            proof {
                crate::node::lemma_children_wire_snoc(model.take(i as int), model[i as int]);
                assert(model.take(i as int).push(model[i as int]) =~~= model.take(i as int + 1));
                assert(output@ =~= head + reserved + value_part + children_wire(
                    model.take(i as int + 1),
                ));
                assert(flags@ =~= present_flags(model.take(i as int + 1)));
            }
            i += 1;
        }
        proof {
            assert(model.take(children@.len() as int) =~~= model);
            assert(present_flags(model).len() == model.len());
        }
        let ghost tail = value_part + children_wire(model);
        let bitmap_bytes_vec = match radix {
            Radix::Sixteen => BitMap16::encode(flags.as_slice()),
            Radix::Four => BitMap4::encode(flags.as_slice()),
        };
        let out_len = output.len();
        let mut b: usize = 0;
        proof {
            assert(output@ =~= head + bitmap_bytes_vec@.take(0) + reserved.skip(0) + tail);
        }
        while b < bitmap_len
            invariant
                b <= bitmap_len,
                out_len == output@.len(),
                bitmap_index + bitmap_len <= out_len,
                bitmap_len == radix.spec_bitmap_len(),
                bitmap_index == head.len(),
                bitmap_bytes_vec@.len() == bitmap_len,
                reserved.len() == bitmap_len,
                output@.len() == head.len() + bitmap_len + tail.len(),
                output@ =~= head + bitmap_bytes_vec@.take(b as int) + reserved.skip(b as int)
                    + tail,
            decreases bitmap_len - b,
        {
            output.set(bitmap_index + b, bitmap_bytes_vec[b]);
            proof {
                assert(output@ =~= head + bitmap_bytes_vec@.take(b + 1) + reserved.skip(b + 1)
                    + tail);
            }
            b += 1;
        }
        proof {
            assert(bitmap_bytes_vec@.take(bitmap_len as int) =~= bitmap_bytes_vec@);
            assert(reserved.skip(bitmap_len as int) =~= Seq::<u8>::empty());
            assert(output@ =~= branch_node_nibbled_wire(
                partial@,
                number_nibble as nat,
                model,
                maybe_value.deep_view(),
                radix,
            ));
        }
        output
    }
}

/// Whether the padding area of the first key byte is clear: with a nibble
/// count that is not byte-aligned, the byte at `pos` must exist and keep its
/// unused leading nibbles zero.
pub open spec fn padding_ok_spec(data: Seq<u8>, pos: int, c: nat, radix: Radix) -> bool {
    let m = c % radix.spec_nibble_per_byte();
    m == 0 || (pos < data.len() && (data[pos] as nat) < radix.nibble_bound(m))
}

/// Checks the padding area of the first key byte.
pub fn padding_check(data: &[u8], pos: usize, c: usize, radix: Radix) -> (r: bool)
    requires
        pos <= data@.len(),
    ensures
        r == padding_ok_spec(data@, pos as int, c as nat, radix),
{
    let npb = radix.nibble_per_byte();
    let m = c % npb;
    if m == 0 {
        return true;
    }
    if pos >= data.len() {
        return false;
    }
    let padding = npb - m;
    radix.masked_left(padding as u8, data[pos]) == 0
}

/// What decoding a node yields under the no-extension layout: a header, a
/// padding check on the first key byte, then the remainder its kind asks
/// for.
pub open spec fn decode_node_noext_spec(data: Seq<u8>, radix: Radix) -> Option<NodeModel> {
    match decode_header_noext_spec(data) {
        None => None,
        Some((h, hk)) => match h {
            NodeHeaderNoExt::Null => Some(NodeModel::Empty),
            NodeHeaderNoExt::Leaf(c) => {
                if !padding_ok_spec(data, hk as int, c as nat, radix) {
                    None
                } else {
                    match decode_key_range_spec(data, hk as int, c as nat, radix) {
                        None => None,
                        Some((key, value)) => Some(NodeModel::Leaf { key, value }),
                    }
                }
            },
            NodeHeaderNoExt::Branch(has_value, c) => {
                if !padding_ok_spec(data, hk as int, c as nat, radix) {
                    None
                } else {
                    let nb = nibble_bytes_len(c as nat, radix) as int;
                    if hk + nb > data.len() {
                        None
                    } else {
                        let key = NibblesModel {
                            count: c as nat,
                            data: data.subrange(hk as int, hk + nb),
                        };
                        match decode_bitmap_spec(data, hk + nb, radix) {
                            None => None,
                            Some(bm) => {
                                match decode_branch_body_spec(
                                    data,
                                    hk + nb + radix.spec_bitmap_len(),
                                    has_value,
                                    bm,
                                    radix,
                                ) {
                                    None => None,
                                    Some((cs, v)) => Some(
                                        NodeModel::NibbledBranch { key, children: cs, value: v },
                                    ),
                                }
                            },
                        }
                    }
                }
            },
        },
    }
}

impl ReferenceNodeCodecNoExt {
    /// Decodes a node, or fails with the single bad-format error whenever
    /// the bytes do not parse under the no-extension layout's grammar —
    /// including nonzero padding bits in an odd-count partial key.
    pub fn decode(data: &[u8], radix: Radix) -> (r: Result<Node, ReferenceError>)
        ensures
            match r {
                Ok(n) => decode_node_noext_spec(data@, radix) == Some(n@),
                Err(e) => decode_node_noext_spec(data@, radix) == None::<NodeModel> && e
                    == ReferenceError::BadFormat,
            },
    {
        let data_len = data.len();
        proof {
            assert(data@.len() == data_len);
            assert(data@.skip(0) =~= data@);
        }
        match NodeHeaderNoExt::decode(data, 0) {
            None => Err(ReferenceError::BadFormat),
            Some((header, pos)) => match header {
                NodeHeaderNoExt::Null => Ok(Node::Empty),
                NodeHeaderNoExt::Leaf(c) => {
                    if !padding_check(data, pos, c, radix) {
                        Err(ReferenceError::BadFormat)
                    } else {
                        match decode_key_range(data, pos, c, radix) {
                            Err(e) => Err(e),
                            Ok((key, value)) => Ok(Node::Leaf(key, value)),
                        }
                    }
                },
                NodeHeaderNoExt::Branch(has_value, c) => {
                    if !padding_check(data, pos, c, radix) {
                        Err(ReferenceError::BadFormat)
                    } else {
                        let nb = nibble_bytes_count(c, radix);
                        match take_vec(data, pos, nb) {
                            None => Err(ReferenceError::BadFormat),
                            Some(key_bytes) => {
                                match decode_bitmap(data, pos + nb, radix) {
                                    Err(e) => Err(e),
                                    Ok(bm) => {
                                        proof {
                                            assert(pos + nb + radix.spec_bitmap_len()
                                                <= data@.len());
                                        }
                                        let bpos = pos + nb + radix.bitmap_len();
                                        match decode_branch_body(data, bpos, has_value, bm, radix) {
                                            Err(e) => Err(e),
                                            Ok((children, value)) => Ok(
                                                Node::NibbledBranch(
                                                    NibbleData {
                                                        nibble_count: c,
                                                        data: key_bytes,
                                                    },
                                                    children,
                                                    value,
                                                ),
                                            ),
                                        }
                                    },
                                }
                            },
                        }
                    }
                },
            },
        }
    }
}

/// A byte count of `c` nibbles, spelt out: the whole bytes plus one more for
/// a trailing part-byte.
pub proof fn lemma_nibble_bytes_len_parts(c: nat, radix: Radix)
    ensures
        nibble_bytes_len(c, radix) == c / radix.spec_nibble_per_byte() + (
        if c % radix.spec_nibble_per_byte() == 0 {
            0nat
        } else {
            1nat
        }),
{
    let n = radix.spec_nibble_per_byte() as int;
    let q = c as int / n;
    let rem = c as int % n;
    vstd::arithmetic::div_mod::lemma_fundamental_div_mod(c as int, n);
    if rem == 0 {
        vstd::arithmetic::div_mod::lemma_fundamental_div_mod_converse(c + n - 1, n, q, n - 1);
    } else {
        vstd::arithmetic::div_mod::lemma_fundamental_div_mod_converse(c + n - 1, n, q + 1, rem - 1);
    }
}

/// A valid partial key's nibble count leaves its odd-nibble count as the
/// remainder modulo nibbles-per-byte.
pub proof fn lemma_partial_count_mod(p: Partial, radix: Radix)
    requires
        p.valid(radix),
    ensures
        p.spec_nibble_count(radix) % radix.spec_nibble_per_byte() == p.odd,
{
    let n = radix.spec_nibble_per_byte() as int;
    vstd::arithmetic::mul::lemma_mul_is_commutative(p.bytes@.len() as int, n);
    lemma_mod_multiples_vanish(p.bytes@.len() as int, p.odd as int, n);
    lemma_small_mod(p.odd as nat, n as nat);
}

/// The empty node's encoding decodes to the empty node.
pub proof fn lemma_empty_node_noext_round_trip(radix: Radix)
    ensures
        decode_node_noext_spec(seq![0u8], radix) == Some(NodeModel::Empty),
{
}

/// Round-trip for no-extension leaves: decoding an encoded leaf whose nibble
/// count is within the layout's bound yields the leaf back, its key in
/// canonical wire form.
pub proof fn lemma_leaf_node_noext_round_trip(p: Partial, value: Seq<u8>, radix: Radix)
    requires
        p.valid(radix),
        p.spec_nibble_count(radix) <= 65535,
        value.len() <= u32::MAX,
    ensures
        decode_node_noext_spec(leaf_node_noext_wire(p, value, radix), radix) == Some(
            NodeModel::Leaf {
                key: NibblesModel { count: p.spec_nibble_count(radix), data: p.wire(radix) },
                value,
            },
        ),
{
    let c = p.spec_nibble_count(radix);
    let data = leaf_node_noext_wire(p, value, radix);
    let h = NodeHeaderNoExt::Leaf(c as usize);
    let rest = p.wire(radix) + value_wire(value);
    lemma_header_noext_round_trip(h, rest);
    assert(data =~= h.bytes() + rest);
    let hk = h.bytes().len() as int;
    assert(decode_header_noext_spec(data) == Some((h, hk as nat)));
    lemma_partial_count_mod(p, radix);
    lemma_nibble_bytes_of_partial(p, radix);
    assert(data.skip(hk) =~= rest);
    if p.odd > 0 {
        radix.lemma_nibble_bound_values();
        assert(data[hk] == p.wire(radix)[0]);
        assert((p.wire(radix)[0] as nat) < radix.nibble_bound(p.odd as nat));
    }
    assert(padding_ok_spec(data, hk, c, radix));
    crate::codec_ext::lemma_key_range_round_trip(data, hk, c, p.wire(radix), value, radix);
}

/// Round-trip for nibbled branches: decoding an encoded branch whose nibble
/// count is within the bound and whose first key byte keeps its padding
/// clear yields the same key, children and optional value back.
/// The front of an encoded nibbled branch parses back: the header yields the
/// kind and count, the padding area is clear, the key bytes sit at the
/// header's end, and the bitmap follows them.
#[verifier::rlimit(100)]
#[verifier::spinoff_prover]
proof fn lemma_nibbled_branch_front(
    partial_bytes: Seq<u8>,
    c: nat,
    children: Seq<Option<Seq<u8>>>,
    value: Option<Seq<u8>>,
    radix: Radix,
)
    requires
        c <= 65535,
        partial_bytes.len() == nibble_bytes_len(c, radix),
        c % radix.spec_nibble_per_byte() != 0 ==> (partial_bytes[0] as nat) < radix.nibble_bound(
            c % radix.spec_nibble_per_byte(),
        ),
        children.len() == radix.spec_nibble_length(),
    ensures
        ({
            let data = branch_node_nibbled_wire(partial_bytes, c, children, value, radix);
            let h = NodeHeaderNoExt::Branch(value is Some, c as usize);
            let hk = h.bytes().len() as int;
            let nb = partial_bytes.len() as int;
            let vpos = hk + nb + radix.spec_bitmap_len();
            &&& decode_header_noext_spec(data) == Some((h, hk as nat))
            &&& padding_ok_spec(data, hk, c, radix)
            &&& data.subrange(hk, hk + nb) == partial_bytes
            &&& decode_bitmap_spec(data, hk + nb, radix) == Some(bitmap_val(present_flags(children)))
            &&& data.skip(vpos) == (match value {
                Some(v) => value_wire(v),
                None => Seq::<u8>::empty(),
            }) + children_wire(children)
            &&& vpos + (match value {
                Some(v) => value_wire(v).len(),
                None => 0nat,
            }) + children_wire(children).len() == data.len()
        }),
{
    let data = branch_node_nibbled_wire(partial_bytes, c, children, value, radix);
    let has_value = value is Some;
    let h = NodeHeaderNoExt::Branch(has_value, c as usize);
    let flags = present_flags(children);
    let bmb = bitmap_bytes(flags, radix);
    let bm = bitmap_val(flags);
    let vw: Seq<u8> = match value {
        Some(v) => value_wire(v),
        None => Seq::empty(),
    };
    let cw = children_wire(children);
    let rest = partial_bytes + bmb + vw + cw;
    lemma_header_noext_round_trip(h, rest);
    assert(h.bytes() == encoded_size_prefix(
        c,
        if has_value {
            192
        } else {
            128
        },
    ));
    assert(data =~= h.bytes() + rest);
    let hk = h.bytes().len() as int;
    assert(decode_header_noext_spec(data) == Some((h, hk as nat)));
    let nb = partial_bytes.len() as int;
    if c % radix.spec_nibble_per_byte() != 0 {
        lemma_nibble_bytes_len_parts(c, radix);
        assert(nb >= 1);
        assert(data[hk] == partial_bytes[0]);
    }
    assert(padding_ok_spec(data, hk, c, radix));
    assert(data.subrange(hk, hk + nb) =~= data.skip(hk).subrange(0, nb));
    assert(data.skip(hk) =~= rest);
    assert(data.skip(hk).subrange(0, nb) =~= partial_bytes);
    lemma_bitmap_round_trip(flags, radix);
    let bl = radix.spec_bitmap_len() as int;
    assert(data.skip(hk + nb) =~= data.skip(hk).skip(nb));
    assert(data.skip(hk).skip(nb) =~= bmb + (vw + cw));
    assert(data[hk + nb] == bmb[0]);
    if radix == Radix::Sixteen {
        assert(data[hk + nb + 1] == bmb[1]);
    }
    assert(decode_bitmap_spec(data, hk + nb, radix) == Some(bm));
    let vpos = hk + nb + bl;
    assert(data.skip(vpos) =~= data.skip(hk + nb).skip(bl));
    assert(data.skip(vpos) =~= vw + cw);
}

/// Round-trip for nibbled branches: decoding an encoded branch whose nibble
/// count is within the bound and whose first key byte keeps its padding
/// clear yields the same key, children and optional value back.
#[verifier::spinoff_prover]
pub proof fn lemma_branch_node_nibbled_round_trip(
    partial_bytes: Seq<u8>,
    c: nat,
    children: Seq<Option<Seq<u8>>>,
    value: Option<Seq<u8>>,
    radix: Radix,
)
    requires
        c <= 65535,
        partial_bytes.len() == nibble_bytes_len(c, radix),
        c % radix.spec_nibble_per_byte() != 0 ==> (partial_bytes[0] as nat) < radix.nibble_bound(
            c % radix.spec_nibble_per_byte(),
        ),
        children.len() == radix.spec_nibble_length(),
        forall|i: int|
            0 <= i < children.len() ==> (#[trigger] children[i] matches Some(b) ==> b.len()
                <= u32::MAX),
        value matches Some(v) ==> v.len() <= u32::MAX,
    ensures
        decode_node_noext_spec(
            branch_node_nibbled_wire(partial_bytes, c, children, value, radix),
            radix,
        ) == Some(
            NodeModel::NibbledBranch {
                key: NibblesModel { count: c, data: partial_bytes },
                children,
                value,
            },
        ),
{
    let data = branch_node_nibbled_wire(partial_bytes, c, children, value, radix);
    let flags = present_flags(children);
    let bm = bitmap_val(flags);
    let h = NodeHeaderNoExt::Branch(value is Some, c as usize);
    let hk = h.bytes().len() as int;
    let nb = partial_bytes.len() as int;
    let vpos = hk + nb + radix.spec_bitmap_len();
    lemma_nibbled_branch_front(partial_bytes, c, children, value, radix);
    assert forall|j: int| 0 <= j < children.len() implies (crate::bitmap::get_bit(bm, j as nat)
        <==> children[j] is Some) by {
        lemma_bitmap_val_bit(flags, j as nat);
        assert(flags[j] == (children[j] is Some));
    }
    crate::children::lemma_branch_body_round_trip(data, vpos, children, value, bm, radix);
}

/// Padding validation: a no-extension leaf or branch encoding whose nibble
/// count is not byte-aligned and whose first key byte carries nonzero
/// padding bits fails to decode, whatever follows that byte.
pub proof fn lemma_noext_padding_rejected(
    kind: NodeKindNoExt,
    c: nat,
    first_key_byte: u8,
    rest: Seq<u8>,
    radix: Radix,
)
    requires
        c <= 65535,
        c % radix.spec_nibble_per_byte() != 0,
        (first_key_byte as nat) >= radix.nibble_bound(c % radix.spec_nibble_per_byte()),
    ensures
        decode_node_noext_spec(
            encoded_size_prefix(c, kind.mask()) + seq![first_key_byte] + rest,
            radix,
        ) == None::<NodeModel>,
{
    let h = kind.header(c);
    let data = encoded_size_prefix(c, kind.mask()) + seq![first_key_byte] + rest;
    let tail = seq![first_key_byte] + rest;
    lemma_header_noext_round_trip(h, tail);
    assert(h.bytes() == encoded_size_prefix(c, kind.mask()));
    assert(data =~= h.bytes() + tail);
    let hk = h.bytes().len() as int;
    assert(decode_header_noext_spec(data) == Some((h, hk as nat)));
    assert(data[hk] == first_key_byte);
    assert(!padding_ok_spec(data, hk, c, radix));
}

} // verus!
