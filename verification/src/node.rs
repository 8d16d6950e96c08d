//! The logical shape of a trie node, as the encoders consume it and the
//! decoder produces it.

use vstd::prelude::*;
use crate::compact::value_wire;

verus! {

/// A child reference handed to the encoders: either a full hash or a short
/// inline encoding. Either way it is a self-contained byte value copied into
/// the parent's encoding.
pub enum ChildReference {
    /// A hash of the child's encoding.
    Hash(Vec<u8>),
    /// The child's own encoding, stored in place of a hash.
    Inline(Vec<u8>),
}

impl ChildReference {
    /// The bytes the reference contributes to the parent's encoding. Both
    /// forms are written length-prefixed; a decoder tells them apart by the
    /// stored range's width alone.
    pub open spec fn bytes(self) -> Seq<u8> {
        match self {
            ChildReference::Hash(h) => h@,
            ChildReference::Inline(d) => d@,
        }
    }

    /// The reference's bytes as a slice.
    pub fn as_slice(&self) -> (r: &[u8])
        ensures
            r@ == self.bytes(),
    {
        match self {
            ChildReference::Hash(h) => h.as_slice(),
            ChildReference::Inline(d) => d.as_slice(),
        }
    }
}

/// Ghost model of a decoded partial key: its nibble count and the wire bytes
/// carrying its nibbles.
pub struct NibblesModel {
    /// How many nibbles the key has.
    pub count: nat,
    /// The bytes holding them, padding first.
    pub data: Seq<u8>,
}

/// A decoded partial key.
#[derive(Debug, PartialEq, Eq)]
pub struct NibbleData {
    /// How many nibbles the key has.
    pub nibble_count: usize,
    /// The bytes holding them, padding first.
    pub data: Vec<u8>,
}

impl View for NibbleData {
    type V = NibblesModel;

    open spec fn view(&self) -> NibblesModel {
        NibblesModel { count: self.nibble_count as nat, data: self.data@ }
    }
}

/// Ghost model of a decoded node.
pub enum NodeModel {
    /// The empty node.
    Empty,
    /// A leaf: partial key and value.
    Leaf { key: NibblesModel, value: Seq<u8> },
    /// An extension: partial key and one child range (extension layout only).
    Extension { key: NibblesModel, child: Seq<u8> },
    /// A branch without its own key: child ranges and an optional value
    /// (extension layout only).
    Branch { children: Seq<Option<Seq<u8>>>, value: Option<Seq<u8>> },
    /// A branch carrying a partial key (no-extension layout only).
    NibbledBranch { key: NibblesModel, children: Seq<Option<Seq<u8>>>, value: Option<Seq<u8>> },
}

/// A decoded node. Each child of a branch is the byte range that stood
/// length-prefixed on the wire: a hash exactly when its width is the hash
/// width, an inline encoding otherwise.
#[derive(Debug, PartialEq, Eq)]
pub enum Node {
    /// The empty node.
    Empty,
    /// A leaf: partial key and value.
    Leaf(NibbleData, Vec<u8>),
    /// An extension: partial key and one child range (extension layout only).
    Extension(NibbleData, Vec<u8>),
    /// A branch without its own key (extension layout only).
    Branch(Vec<Option<Vec<u8>>>, Option<Vec<u8>>),
    /// A branch carrying a partial key (no-extension layout only).
    NibbledBranch(NibbleData, Vec<Option<Vec<u8>>>, Option<Vec<u8>>),
}

impl View for Node {
    type V = NodeModel;

    open spec fn view(&self) -> NodeModel {
        match self {
            Node::Empty => NodeModel::Empty,
            Node::Leaf(k, v) => NodeModel::Leaf { key: k@, value: v@ },
            Node::Extension(k, c) => NodeModel::Extension { key: k@, child: c@ },
            Node::Branch(cs, v) => NodeModel::Branch {
                children: cs.deep_view(),
                value: v.deep_view(),
            },
            Node::NibbledBranch(k, cs, v) => NodeModel::NibbledBranch {
                key: k@,
                children: cs.deep_view(),
                value: v.deep_view(),
            },
        }
    }
}

/// What one optional child contributes to a branch encoding: an absent child
/// contributes nothing, a present one its bytes, length-prefixed.
pub open spec fn child_entry_wire(c: Option<Seq<u8>>) -> Seq<u8> {
    match c {
        Some(b) => value_wire(b),
        None => Seq::empty(),
    }
}

/// What a branch's children contribute to its encoding, in slot order.
pub open spec fn children_wire(cs: Seq<Option<Seq<u8>>>) -> Seq<u8>
    decreases cs.len(),
{
    if cs.len() == 0 {
        Seq::empty()
    } else {
        child_entry_wire(cs[0]) + children_wire(cs.skip(1))
    }
}

/// Which slots are populated.
pub open spec fn present_flags(cs: Seq<Option<Seq<u8>>>) -> Seq<bool> {
    cs.map_values(|c: Option<Seq<u8>>| c is Some)
}

/// Appending one slot appends its contribution.
pub proof fn lemma_children_wire_snoc(cs: Seq<Option<Seq<u8>>>, c: Option<Seq<u8>>)
    ensures
        children_wire(cs.push(c)) == children_wire(cs) + child_entry_wire(c),
    decreases cs.len(),
{
    if cs.len() == 0 {
        let pushed = cs.push(c);
        assert(pushed[0] == c);
        assert(pushed.skip(1) =~= Seq::<Option<Seq<u8>>>::empty());
        assert(children_wire(pushed.skip(1)) =~= Seq::<u8>::empty());
        assert(children_wire(pushed) =~= child_entry_wire(c) + children_wire(pushed.skip(1)));
        assert(child_entry_wire(c) + Seq::<u8>::empty() =~= child_entry_wire(c));
        assert(children_wire(cs) + child_entry_wire(c) =~= child_entry_wire(c));
    } else {
        lemma_children_wire_snoc(cs.skip(1), c);
        assert(cs.push(c).skip(1) =~= cs.skip(1).push(c));
        assert(children_wire(cs.push(c)) == child_entry_wire(cs[0]) + (children_wire(cs.skip(1))
            + child_entry_wire(c)));
        assert(child_entry_wire(cs[0]) + (children_wire(cs.skip(1)) + child_entry_wire(c)) =~= (
        child_entry_wire(cs[0]) + children_wire(cs.skip(1))) + child_entry_wire(c));
    }
}

} // verus!
