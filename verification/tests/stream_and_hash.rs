use reference_trie::stream::{
    branch_node, branch_node_bit_mask, fuse_nibbles_node, ReferenceTrieStream,
    ReferenceTrieStreamNoExt,
};
use reference_trie::codec_ext::ReferenceNodeCodec;
use reference_trie::codec_noext::ReferenceNodeCodecNoExt;
use hash_db::Hasher;

#[test]
fn fuse_nibbles_node_packs_expanded_nibbles() {
    // Even count: pairs only.
    assert_eq!(fuse_nibbles_node(&[0x1, 0x2, 0x3, 0x4], true), vec![1 + 4, 0x12, 0x34]);
    // Odd count: the leading nibble keeps a byte of its own.
    assert_eq!(fuse_nibbles_node(&[0xa, 0xb, 0xc], false), vec![128 + 3, 0x0a, 0xbc]);
    // Empty key.
    assert_eq!(fuse_nibbles_node(&[], true), vec![1]);
}

#[test]
fn branch_node_helpers_agree() {
    let mut flags = [false; 16];
    flags[2] = true;
    flags[9] = true;
    let (lo, hi) = branch_node_bit_mask(&flags);
    assert_eq!((lo, hi), (0x04, 0x02));
    assert_eq!(branch_node(false, &flags), vec![254, 0x04, 0x02]);
    assert_eq!(branch_node(true, &flags), vec![255, 0x04, 0x02]);
}

#[test]
fn stream_leaf_matches_hand_encoding() {
    let mut s = ReferenceTrieStream::new();
    s.append_leaf(&[0x1, 0x2, 0x3], &[9]);
    // tag 1+3, odd nibble, pair, compact(1) = 4, value
    assert_eq!(s.out(), vec![4, 0x01, 0x23, 4, 9]);
}

#[test]
fn stream_branch_and_extension() {
    let mut flags = [false; 16];
    flags[0] = true;
    let mut s = ReferenceTrieStream::new();
    s.begin_branch(None, Some(&[7u8]), &flags);
    s.append_extension(&[0x4, 0x5]);
    let out = s.out();
    // branch header, bitmap, compact(1)+value, then the extension fuse
    assert_eq!(out, vec![255, 0x01, 0x00, 4, 7, 128 + 2, 0x45]);
}

#[test]
fn stream_substream_short_goes_inline() {
    let mut child = ReferenceTrieStream::new();
    child.append_empty_data();
    let mut parent = ReferenceTrieStream::new();
    parent.append_substream(child);
    // one byte of child data, length-prefixed: compact(1) = 4
    assert_eq!(parent.out(), vec![4, 0]);
}

#[test]
fn stream_substream_long_is_hashed() {
    let mut child = ReferenceTrieStream::new();
    child.append_leaf(&[0x1; 40], &[0u8; 10]);
    let child_bytes = {
        let mut c2 = ReferenceTrieStream::new();
        c2.append_leaf(&[0x1; 40], &[0u8; 10]);
        c2.out()
    };
    assert!(child_bytes.len() > 31);
    let mut parent = ReferenceTrieStream::new();
    parent.append_substream(child);
    let out = parent.out();
    let digest = keccak_hasher::KeccakHasher::hash(&child_bytes);
    // compact(32) = 128, then the digest
    assert_eq!(out[0], 32 << 2);
    assert_eq!(&out[1..], &digest[..]);
}

#[test]
fn stream_noext_branch_with_key() {
    let mut flags = [false; 16];
    flags[5] = true;
    let mut s = ReferenceTrieStreamNoExt::new();
    s.begin_branch(Some(&[0x2]), None, &flags);
    let out = s.out();
    // branch-no-value header for one nibble, odd nibble byte, bitmap 0x0020
    assert_eq!(out, vec![128 + 1, 0x02, 0x20, 0x00]);
}

#[test]
fn stream_noext_extension_writes_nothing() {
    let mut s = ReferenceTrieStreamNoExt::new();
    s.append_empty_data();
    s.append_extension(&[0x1, 0x2]);
    assert_eq!(s.out(), vec![0]);
}

#[test]
fn hashed_null_node_is_keccak_of_empty_encoding() {
    let h1 = ReferenceNodeCodec::hashed_null_node();
    let h2 = ReferenceNodeCodecNoExt::hashed_null_node();
    let expected = keccak_hasher::KeccakHasher::hash(&[0u8]);
    assert_eq!(h1.len(), 32);
    assert_eq!(&h1[..], &expected[..]);
    assert_eq!(&h2[..], &expected[..]);
}
