//! The hashing primitive used to derive node identifiers.

use vstd::prelude::*;

verus! {

/// The 32-byte Keccak-256 digest of a byte sequence, named but not modelled:
/// every fact the library proves about hashing holds whatever the digest is.
pub uninterp spec fn keccak_of(data: Seq<u8>) -> Seq<u8>;

/// Relies on `keccak_hasher::KeccakHasher::hash` (Keccak-256): a 32-byte
/// digest that is a function of the input bytes alone.
#[verifier::external_body]
pub fn keccak_256(data: &[u8]) -> (r: Vec<u8>)
    ensures
        r@ == keccak_of(data@),
        r@.len() == 32,
{
    let h = <keccak_hasher::KeccakHasher as hash_db::Hasher>::hash(data);
    h.to_vec()
}

} // verus!
