//! Node-level binary codec for a hash-linked radix-16 / radix-4 trie.
//!
//! The crate provides, for two sibling node layouts (one with explicit
//! extension nodes, one folding shared prefixes into branch and leaf nodes):
//! a variable-length size codec, child-presence bitmap codecs, node header
//! codecs, and the node encoder/decoder pair, together with proofs that the
//! decoders invert the encoders byte-exactly.

pub mod bitmap;
pub mod bytes;
pub mod children;
pub mod codec_ext;
pub mod codec_noext;
pub mod compact;
pub mod errors;
pub mod hashing;
pub mod header;
pub mod laws;
pub mod layout;
pub mod nibble;
pub mod node;
pub mod size_codec;
pub mod stream;
