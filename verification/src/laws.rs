//! Cross-cutting guarantees of the codec, stated once over both layouts.

use vstd::prelude::*;
use crate::codec_ext::{leaf_node_ext_wire, branch_node_ext_wire};
use crate::codec_noext::{leaf_node_noext_wire, branch_node_nibbled_wire};
use crate::nibble::{Partial, Radix};

verus! {

/// Tie-break determinism for leaves: the encoders are pure functions of the
/// logical node, so two encodings of the same key and value are
/// byte-identical regardless of call order or prior encoder state — and two
/// partial-key representations that differ only in the dead padding bits of
/// the byte carrying the odd nibbles encode identically, because the encoder
/// masks that byte before it reaches the wire.
pub proof fn lemma_leaf_encoding_tie_break(p1: Partial, p2: Partial, value: Seq<u8>, radix: Radix)
    requires
        p1.valid(radix),
        p2.valid(radix),
        p1.odd == p2.odd,
        p1.bytes@ == p2.bytes@,
        radix.spec_masked_right(p1.odd as nat, p1.padded) == radix.spec_masked_right(
            p2.odd as nat,
            p2.padded,
        ),
    ensures
        leaf_node_ext_wire(p1, value, radix) == leaf_node_ext_wire(p2, value, radix),
        leaf_node_noext_wire(p1, value, radix) == leaf_node_noext_wire(p2, value, radix),
{
    assert(p1.wire(radix) =~= p2.wire(radix));
    assert(p1.spec_nibble_count(radix) == p2.spec_nibble_count(radix));
}

/// Tie-break determinism for branches: the branch encodings are functions of
/// the children, the optional value, and (for the nibbled form) the key
/// bytes and nibble count alone — equal logical content gives equal bytes.
pub proof fn lemma_branch_encoding_tie_break(
    children1: Seq<Option<Seq<u8>>>,
    children2: Seq<Option<Seq<u8>>>,
    value: Option<Seq<u8>>,
    partial_bytes: Seq<u8>,
    c: nat,
    radix: Radix,
)
    requires
        children1 == children2,
    ensures
        branch_node_ext_wire(children1, value, radix) == branch_node_ext_wire(
            children2,
            value,
            radix,
        ),
        branch_node_nibbled_wire(partial_bytes, c, children1, value, radix)
            == branch_node_nibbled_wire(partial_bytes, c, children2, value, radix),
{
}

} // verus!
