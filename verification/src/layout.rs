//! The concrete layout configurations: which codec shape, which radix, and
//! the hash width the child references use.

use vstd::prelude::*;
use crate::nibble::Radix;

verus! {

/// Trie layout using extension nodes, radix 16, 32-byte hashes.
pub struct ExtensionLayout;

impl ExtensionLayout {
    /// This layout uses extension nodes.
    pub fn use_extension() -> (r: bool)
        ensures
            r,
    {
        true
    }

    /// The layout's radix.
    pub fn radix() -> (r: Radix)
        ensures
            r == Radix::Sixteen,
    {
        Radix::Sixteen
    }

    /// The width of a child hash reference.
    pub fn hash_len() -> (r: usize)
        ensures
            r == 32,
    {
        32
    }
}

/// Trie layout without extension nodes, radix 16, 32-byte hashes.
pub struct NoExtensionLayout;

impl NoExtensionLayout {
    /// This layout folds shared prefixes into branch and leaf nodes.
    pub fn use_extension() -> (r: bool)
        ensures
            !r,
    {
        false
    }

    /// The layout's radix.
    pub fn radix() -> (r: Radix)
        ensures
            r == Radix::Sixteen,
    {
        Radix::Sixteen
    }

    /// The width of a child hash reference.
    pub fn hash_len() -> (r: usize)
        ensures
            r == 32,
    {
        32
    }
}

/// The no-extension layout over any hasher of the same shape.
#[verifier::reject_recursive_types(H)]
pub struct SimpleNoExtensionLayout<H>(pub core::marker::PhantomData<H>);

impl<H> SimpleNoExtensionLayout<H> {
    /// This layout folds shared prefixes into branch and leaf nodes.
    pub fn use_extension() -> (r: bool)
        ensures
            !r,
    {
        false
    }

    /// The layout's radix.
    pub fn radix() -> (r: Radix)
        ensures
            r == Radix::Sixteen,
    {
        Radix::Sixteen
    }
}

/// Trie layout without extension nodes at radix 4, 32-byte hashes.
pub struct NoExtensionLayoutQuarter;

impl NoExtensionLayoutQuarter {
    /// This layout folds shared prefixes into branch and leaf nodes.
    pub fn use_extension() -> (r: bool)
        ensures
            !r,
    {
        false
    }

    /// The layout's radix.
    pub fn radix() -> (r: Radix)
        ensures
            r == Radix::Four,
    {
        Radix::Four
    }

    /// The width of a child hash reference.
    pub fn hash_len() -> (r: usize)
        ensures
            r == 32,
    {
        32
    }
}

} // verus!
