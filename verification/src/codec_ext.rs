//! Node codec for the extension layout: single-byte header tags, explicit
//! extension nodes, branches without their own partial key.

use vstd::prelude::*;
use vstd::arithmetic::div_mod::{lemma_fundamental_div_mod, lemma_fundamental_div_mod_converse};
use crate::bitmap::{bitmap_bytes, bitmap_val, lemma_bitmap_val_bit, lemma_bitmap_round_trip,
    BitMap16, BitMap4};
use crate::bytes::push_bytes;
use crate::children::{decode_bitmap_spec, decode_branch_body_spec, decode_key_range_spec,
    decode_bitmap, decode_branch_body, decode_key_range};
use crate::compact::{value_wire, compact_of, compact_decode_spec, encode_bytes_prefixed,
    lemma_compact_round_trip};
use crate::errors::ReferenceError;
use crate::hashing::{keccak_of, keccak_256};
use crate::header::{decode_header_ext, NodeHeader};
use crate::nibble::{Partial, Radix};
use crate::node::{child_entry_wire, children_wire, present_flags, ChildReference, NibblesModel,
    Node, NodeModel};

verus! {

/// How many bytes carry `c` nibbles.
pub open spec fn nibble_bytes_len(c: nat, radix: Radix) -> nat {
    ((c + radix.spec_nibble_per_byte() - 1) / radix.spec_nibble_per_byte() as int) as nat
}

/// How many bytes carry `c` nibbles: the count divided by nibbles-per-byte,
/// rounded up.
pub fn nibble_bytes_count(c: usize, radix: Radix) -> (r: usize)
    ensures
        r == nibble_bytes_len(c as nat, radix),
{
    let npb = radix.nibble_per_byte();
    let q = c / npb;
    let rem = c % npb;
    proof {
        let n = radix.spec_nibble_per_byte() as int;
        lemma_fundamental_div_mod(c as int, n);
        if rem == 0 {
            lemma_fundamental_div_mod_converse(c + n - 1, n, q as int, n - 1);
        } else {
            lemma_fundamental_div_mod_converse(c + n - 1, n, q as int + 1, rem - 1);
        }
    }
    if rem == 0 {
        q
    } else {
        q + 1
    }
}

/// The byte count of a valid partial key's wire form is its nibble count
/// rounded up to whole bytes.
pub proof fn lemma_nibble_bytes_of_partial(p: Partial, radix: Radix)
    requires
        p.valid(radix),
    ensures
        nibble_bytes_len(p.spec_nibble_count(radix), radix) == p.wire(radix).len(),
{
    let n = radix.spec_nibble_per_byte() as int;
    let c = p.spec_nibble_count(radix) as int;
    let full = p.bytes@.len() as int;
    if p.odd == 0 {
        lemma_fundamental_div_mod_converse(c + n - 1, n, full, n - 1);
    } else {
        lemma_fundamental_div_mod_converse(c + n - 1, n, full + 1, p.odd - 1);
    }
}

/// The wire bytes of a leaf node: a tag byte carrying the nibble count, the
/// key's nibble bytes, the value length-prefixed.
pub open spec fn leaf_node_ext_wire(p: Partial, value: Seq<u8>, radix: Radix) -> Seq<u8> {
    seq![(1 + p.spec_nibble_count(radix)) as u8] + p.wire(radix) + value_wire(value)
}

/// The wire bytes of an extension node: a tag byte carrying the nibble
/// count, the key's (already packed) nibble bytes, the child reference
/// length-prefixed.
pub open spec fn extension_node_ext_wire(
    partial_bytes: Seq<u8>,
    nibble_count: nat,
    child: Seq<u8>,
) -> Seq<u8> {
    seq![(128 + nibble_count) as u8] + partial_bytes + value_wire(child)
}

/// The wire bytes of a branch node: a tag byte telling whether a value is
/// present, the child bitmap, the value (when present) length-prefixed, then
/// every present child in slot order, each length-prefixed.
pub open spec fn branch_node_ext_wire(
    children: Seq<Option<Seq<u8>>>,
    value: Option<Seq<u8>>,
    radix: Radix,
) -> Seq<u8> {
    seq![
        (if value is Some {
            255u8
        } else {
            254u8
        }),
    ] + bitmap_bytes(present_flags(children), radix) + (match value {
        Some(v) => value_wire(v),
        None => Seq::empty(),
    }) + children_wire(children)
}

/// The byte contents of a sequence of optional child references.
pub open spec fn child_refs_model(cs: Seq<Option<ChildReference>>) -> Seq<Option<Seq<u8>>> {
    cs.map_values(
        |c: Option<ChildReference>|
            match c {
                Some(cr) => Some(cr.bytes()),
                None => None,
            },
    )
}

/// Emits a header tag of `offset + nibble count` followed by the partial
/// key's wire bytes. The count must stay below `over`, the width of the
/// tag range.
pub fn partial_to_key(partial: &Partial, offset: u8, over: u8, radix: Radix) -> (r: Vec<u8>)
    requires
        partial.valid(radix),
        partial.spec_nibble_count(radix) < over,
        offset + over <= 256,
    ensures
        r@ == seq![(offset + partial.spec_nibble_count(radix)) as u8] + partial.wire(radix),
{
    let nibble_count = partial.nibble_count(radix);
    let mut output: Vec<u8> = Vec::new();
    output.push(offset + nibble_count as u8);
    crate::nibble::push_partial_wire(partial, radix, &mut output);
    proof {
        assert(output@ =~= seq![(offset + partial.spec_nibble_count(radix)) as u8] + partial.wire(
            radix,
        ));
    }
    output
}

/// Emits a header tag of `offset + nibble_count` followed by the given,
/// already packed, partial key bytes.
pub fn partial_from_iterator_to_key(
    partial: &[u8],
    nibble_count: usize,
    offset: u8,
    over: u8,
) -> (r: Vec<u8>)
    requires
        nibble_count < over,
        offset + over <= 256,
    ensures
        r@ == seq![(offset + nibble_count) as u8] + partial@,
{
    let mut output: Vec<u8> = Vec::new();
    output.push(offset + nibble_count as u8);
    push_bytes(&mut output, partial);
    proof {
        assert(output@ =~= seq![(offset + nibble_count) as u8] + partial@);
    }
    output
}

/// The extension-layout node codec.
pub struct ReferenceNodeCodec;

impl ReferenceNodeCodec {
    /// The empty node's encoding.
    pub fn empty_node() -> (r: Vec<u8>)
        ensures
            r@ == seq![0u8],
    {
        let mut out: Vec<u8> = Vec::new();
        out.push(0);
        proof {
            assert(out@ =~= seq![0u8]);
        }
        out
    }

    /// Whether `data` is exactly the empty node's encoding.
    pub fn is_empty_node(data: &[u8]) -> (r: bool)
        ensures
            r <==> data@ == seq![0u8],
    {
        proof {
            if data@.len() == 1 && data@[0] == 0 {
                assert(data@ =~= seq![0u8]);
            }
        }
        data.len() == 1 && data[0] == 0
    }

    /// The hash of the empty node's encoding.
    pub fn hashed_null_node() -> (r: Vec<u8>)
        ensures
            r@ == keccak_of(seq![0u8]),
            r@.len() == 32,
    {
        let empty = Self::empty_node();
        keccak_256(empty.as_slice())
    }

    /// Reads a child hash back from a stored range: a range is a hash exactly
    /// when its width is the hash width.
    pub fn try_decode_hash(data: &[u8], hash_len: usize) -> (r: Option<Vec<u8>>)
        ensures
            match r {
                Some(h) => data@.len() == hash_len && h@ == data@,
                None => data@.len() != hash_len,
            },
    {
        if data.len() == hash_len {
            Some(vstd::slice::slice_to_vec(data))
        } else {
            None
        }
    }

    /// Encodes a leaf node.
    pub fn leaf_node(partial: &Partial, value: &[u8], radix: Radix) -> (r: Vec<u8>)
        requires
            partial.valid(radix),
            partial.spec_nibble_count(radix) < 127,
            value@.len() <= u32::MAX,
        ensures
            r@ == leaf_node_ext_wire(*partial, value@, radix),
    {
        let mut output = partial_to_key(
            partial,
            crate::header::LEAF_NODE_OFFSET,
            crate::header::LEAF_NODE_OVER,
            radix,
        );
        encode_bytes_prefixed(value, &mut output);
        proof {
            assert(output@ =~= leaf_node_ext_wire(*partial, value@, radix));
        }
        output
    }

    /// Encodes an extension node from already packed partial key bytes.
    pub fn extension_node(
        partial: &[u8],
        nibble_count: usize,
        child: &ChildReference,
    ) -> (r: Vec<u8>)
        requires
            nibble_count < 126,
            child.bytes().len() <= u32::MAX,
        ensures
            r@ == extension_node_ext_wire(partial@, nibble_count as nat, child.bytes()),
    {
        let mut output = partial_from_iterator_to_key(
            partial,
            nibble_count,
            crate::header::EXTENSION_NODE_OFFSET,
            crate::header::EXTENSION_NODE_OVER,
        );
        encode_bytes_prefixed(child.as_slice(), &mut output);
        proof {
            assert(output@ =~= extension_node_ext_wire(
                partial@,
                nibble_count as nat,
                child.bytes(),
            ));
        }
        output
    }

    /// Encodes a branch node: the tag byte and bitmap area are reserved up
    /// front, the value and the present children are appended, and the
    /// finished bitmap is spliced back into the reserved area.
    pub fn branch_node(
        children: &Vec<Option<ChildReference>>,
        maybe_value: &Option<Vec<u8>>,
        radix: Radix,
    ) -> (r: Vec<u8>)
        requires
            children@.len() == radix.spec_nibble_length(),
            forall|i: int|
                0 <= i < children@.len() ==> (#[trigger] children@[i] matches Some(c)
                    ==> c.bytes().len() <= u32::MAX),
            maybe_value matches Some(v) ==> v@.len() <= u32::MAX,
        ensures
            r@ == branch_node_ext_wire(
                child_refs_model(children@),
                maybe_value.deep_view(),
                radix,
            ),
    {
        let ghost model = child_refs_model(children@);
        let bitmap_len = radix.bitmap_len();
        let mut output: Vec<u8> = Vec::new();
        let mut j: usize = 0;
        while j < bitmap_len + 1
            invariant
                bitmap_len <= 2,
                j <= bitmap_len + 1,
                output@ =~= Seq::<u8>::new(j as nat, |k: int| 0u8),
            decreases bitmap_len + 1 - j,
        {
            output.push(0);
            j += 1;
        }
        let ghost reserved = output@;
        let have_value = match maybe_value {
            Some(value) => {
                encode_bytes_prefixed(value.as_slice(), &mut output);
                true
            },
            None => false,
        };
        let ghost value_part = output@.skip(reserved.len() as int);
        let mut flags: Vec<bool> = Vec::new();
        let mut i: usize = 0;
        while i < children.len()
            invariant
                i <= children@.len(),
                model == child_refs_model(children@),
                model.len() == children@.len(),
                flags@ =~= present_flags(model.take(i as int)),
                flags@.len() == i,
                output@ =~= reserved + value_part + children_wire(model.take(i as int)),
                forall|t: int|
                    0 <= t < children@.len() ==> (#[trigger] children@[t] matches Some(c)
                        ==> c.bytes().len() <= u32::MAX),
            decreases children@.len() - i,
        {
            let ghost pre = output@;
            match &children[i] {
                Some(child) => {
                    encode_bytes_prefixed(child.as_slice(), &mut output);
                    flags.push(true);
                },
                None => {
                    flags.push(false);
                },
            }
            proof {
                crate::node::lemma_children_wire_snoc(model.take(i as int), model[i as int]);
                assert(model.take(i as int).push(model[i as int]) =~~= model.take(i as int + 1));
                assert(output@ =~= reserved + value_part + children_wire(model.take(i as int + 1)));
                assert(flags@ =~= present_flags(model.take(i as int + 1)));
            }
            i += 1;
        }
        proof {
            assert(model.take(children@.len() as int) =~~= model);
            assert(present_flags(model).len() == model.len());
        }
        let ghost tail = value_part + children_wire(model);
        proof {
            assert(output@ =~= reserved + tail);
        }
        let first: u8 = if have_value {
            255
        } else {
            254
        };
        let bitmap_bytes_vec = match radix {
            Radix::Sixteen => BitMap16::encode(flags.as_slice()),
            Radix::Four => BitMap4::encode(flags.as_slice()),
        };
        output.set(0, first);
        proof {
            assert(output@ =~= seq![first] + bitmap_bytes_vec@.take(0) + reserved.skip(1) + tail);
        }
        let mut b: usize = 0;
        while b < bitmap_len
            invariant
                b <= bitmap_len,
                bitmap_len == radix.spec_bitmap_len(),
                bitmap_bytes_vec@.len() == bitmap_len,
                reserved.len() == bitmap_len + 1,
                output@.len() == reserved.len() + tail.len(),
                output@ =~= seq![first] + bitmap_bytes_vec@.take(b as int) + reserved.skip(1 + b)
                    + tail,
            decreases bitmap_len - b,
        {
            output.set(1 + b, bitmap_bytes_vec[b]);
            proof {
                assert(output@ =~= seq![first] + bitmap_bytes_vec@.take(b + 1) + reserved.skip(
                    1 + b + 1,
                ) + tail);
            }
            b += 1;
        }
        proof {
            assert(bitmap_bytes_vec@.take(bitmap_len as int) =~= bitmap_bytes_vec@);
            assert(reserved.skip(1 + bitmap_len) =~= Seq::<u8>::empty());
            assert(output@ =~= branch_node_ext_wire(model, maybe_value.deep_view(), radix));
        }
        output
    }
}

/// What decoding a node yields under the extension layout: a header tag,
/// then the remainder its kind asks for.
pub open spec fn decode_node_ext_spec(data: Seq<u8>, radix: Radix) -> Option<NodeModel> {
    if data.len() == 0 {
        None
    } else {
        match decode_header_ext(data[0]) {
            NodeHeader::Null => Some(NodeModel::Empty),
            NodeHeader::Branch(has_value) => {
                match decode_bitmap_spec(data, 1, radix) {
                    None => None,
                    Some(bm) => {
                        match decode_branch_body_spec(
                            data,
                            1 + radix.spec_bitmap_len() as int,
                            has_value,
                            bm,
                            radix,
                        ) {
                            None => None,
                            Some((cs, v)) => Some(NodeModel::Branch { children: cs, value: v }),
                        }
                    },
                }
            },
            NodeHeader::Leaf(c) => match decode_key_range_spec(data, 1, c as nat, radix) {
                None => None,
                Some((key, value)) => Some(NodeModel::Leaf { key, value }),
            },
            NodeHeader::Extension(c) => match decode_key_range_spec(data, 1, c as nat, radix) {
                None => None,
                Some((key, child)) => Some(NodeModel::Extension { key, child }),
            },
        }
    }
}

impl ReferenceNodeCodec {
    /// Decodes a node, or fails with the single bad-format error whenever
    /// the bytes do not parse under the extension layout's grammar.
    pub fn decode(data: &[u8], radix: Radix) -> (r: Result<Node, ReferenceError>)
        ensures
            match r {
                Ok(n) => decode_node_ext_spec(data@, radix) == Some(n@),
                Err(e) => decode_node_ext_spec(data@, radix) == None::<NodeModel> && e
                    == ReferenceError::BadFormat,
            },
    {
        match NodeHeader::decode(data, 0) {
            None => Err(ReferenceError::BadFormat),
            Some((header, pos)) => match header {
                NodeHeader::Null => Ok(Node::Empty),
                NodeHeader::Branch(has_value) => {
                    match decode_bitmap(data, pos, radix) {
                        Err(e) => Err(e),
                        Ok(bm) => {
                            proof {
                                assert(pos + radix.spec_bitmap_len() <= data@.len());
                            }
                            let bpos = pos + radix.bitmap_len();
                            match decode_branch_body(data, bpos, has_value, bm, radix) {
                                Err(e) => Err(e),
                                Ok((children, value)) => Ok(Node::Branch(children, value)),
                            }
                        },
                    }
                },
                NodeHeader::Leaf(c) => match decode_key_range(data, pos, c, radix) {
                    Err(e) => Err(e),
                    Ok((key, value)) => Ok(Node::Leaf(key, value)),
                },
                NodeHeader::Extension(c) => match decode_key_range(data, pos, c, radix) {
                    Err(e) => Err(e),
                    Ok((key, child)) => Ok(Node::Extension(key, child)),
                },
            },
        }
    }
}

/// The empty node's encoding decodes to the empty node.
pub proof fn lemma_empty_node_ext_round_trip(radix: Radix)
    ensures
        decode_node_ext_spec(seq![0u8], radix) == Some(NodeModel::Empty),
{
}

/// Decoding a key-and-range remainder inverts its encoding: `key_wire` bytes
/// carrying `c` nibbles, then a length-prefixed range.
pub proof fn lemma_key_range_round_trip(data: Seq<u8>, pos: int, c: nat, key_wire: Seq<u8>, range: Seq<u8>, radix: Radix)
    requires
        0 <= pos,
        key_wire.len() == nibble_bytes_len(c, radix),
        range.len() <= u32::MAX,
        data.skip(pos) == key_wire + value_wire(range),
        pos + key_wire.len() + value_wire(range).len() == data.len(),
    ensures
        decode_key_range_spec(data, pos, c, radix) == Some(
            ((NibblesModel { count: c, data: key_wire }, range)),
        ),
{
    let nb = key_wire.len() as int;
    assert(data.subrange(pos, pos + nb) =~= data.skip(pos).subrange(0, nb));
    assert(data.skip(pos).subrange(0, nb) =~= key_wire);
    assert(data.skip(pos + nb) =~= data.skip(pos).skip(nb));
    let len_r = range.len() as u32;
    lemma_compact_round_trip(len_r, range);
    assert(data.skip(pos).skip(nb) =~= compact_of(len_r) + range);
    let k = compact_of(len_r).len() as int;
    assert(compact_decode_spec(data.skip(pos + nb)) == Some((len_r, k as nat)));
    assert(pos + nb + k + len_r == data.len());
    assert(data.subrange(pos + nb + k, pos + nb + k + len_r) =~= data.skip(pos + nb).subrange(
        k,
        k + len_r,
    ));
    assert(data.skip(pos + nb).subrange(k, k + len_r) =~= range);
}

/// Round-trip for leaf nodes: decoding an encoded leaf yields the leaf back,
/// its key in canonical wire form.
pub proof fn lemma_leaf_node_ext_round_trip(p: Partial, value: Seq<u8>, radix: Radix)
    requires
        p.valid(radix),
        p.spec_nibble_count(radix) < 127,
        value.len() <= u32::MAX,
    ensures
        decode_node_ext_spec(leaf_node_ext_wire(p, value, radix), radix) == Some(
            NodeModel::Leaf {
                key: NibblesModel { count: p.spec_nibble_count(radix), data: p.wire(radix) },
                value,
            },
        ),
{
    let c = p.spec_nibble_count(radix);
    let data = leaf_node_ext_wire(p, value, radix);
    let tag = (1 + c) as u8;
    assert(data[0] == tag);
    assert(decode_header_ext(tag) == NodeHeader::Leaf(c as usize));
    lemma_nibble_bytes_of_partial(p, radix);
    assert(data.skip(1) =~= p.wire(radix) + value_wire(value));
    lemma_key_range_round_trip(data, 1, c, p.wire(radix), value, radix);
}

/// Round-trip for extension nodes: decoding an encoded extension yields the
/// partial key bytes and the child reference's bytes back.
pub proof fn lemma_extension_node_ext_round_trip(
    partial_bytes: Seq<u8>,
    c: nat,
    child: Seq<u8>,
    radix: Radix,
)
    requires
        c < 126,
        partial_bytes.len() == nibble_bytes_len(c, radix),
        child.len() <= u32::MAX,
    ensures
        decode_node_ext_spec(extension_node_ext_wire(partial_bytes, c, child), radix) == Some(
            NodeModel::Extension { key: NibblesModel { count: c, data: partial_bytes }, child },
        ),
{
    let data = extension_node_ext_wire(partial_bytes, c, child);
    let tag = (128 + c) as u8;
    assert(data[0] == tag);
    assert(decode_header_ext(tag) == NodeHeader::Extension(c as usize));
    assert(data.skip(1) =~= partial_bytes + value_wire(child));
    lemma_key_range_round_trip(data, 1, c, partial_bytes, child, radix);
}

/// Round-trip for branch nodes: decoding an encoded branch yields the same
/// children and optional value back.
#[verifier::rlimit(60)]
pub proof fn lemma_branch_node_ext_round_trip(
    children: Seq<Option<Seq<u8>>>,
    value: Option<Seq<u8>>,
    radix: Radix,
)
    requires
        children.len() == radix.spec_nibble_length(),
        forall|i: int|
            0 <= i < children.len() ==> (#[trigger] children[i] matches Some(b) ==> b.len()
                <= u32::MAX),
        value matches Some(v) ==> v.len() <= u32::MAX,
    ensures
        decode_node_ext_spec(branch_node_ext_wire(children, value, radix), radix) == Some(
            NodeModel::Branch { children, value },
        ),
{
    let data = branch_node_ext_wire(children, value, radix);
    let flags = present_flags(children);
    let bmb = bitmap_bytes(flags, radix);
    let bm = bitmap_val(flags);
    let has_value = value is Some;
    let tag: u8 = if has_value {
        255
    } else {
        254
    };
    assert(data[0] == tag);
    assert(decode_header_ext(tag) == NodeHeader::Branch(has_value));
    lemma_bitmap_round_trip(flags, radix);
    let bl = radix.spec_bitmap_len() as int;
    assert(data[1] == bmb[0]);
    if radix == Radix::Sixteen {
        assert(data[2] == bmb[1]);
    }
    assert(decode_bitmap_spec(data, 1, radix) == Some(bm));
    let vpos = 1 + bl;
    let vw: Seq<u8> = match value {
        Some(v) => value_wire(v),
        None => Seq::empty(),
    };
    let cw = children_wire(children);
    assert(data.skip(vpos) =~= vw + cw);
    assert forall|j: int| 0 <= j < children.len() implies (crate::bitmap::get_bit(bm, j as nat)
        <==> children[j] is Some) by {
        lemma_bitmap_val_bit(flags, j as nat);
        assert(flags[j] == (children[j] is Some));
    }
    crate::children::lemma_branch_body_round_trip(data, vpos, children, value, bm, radix);
}

} // verus!
