use reference_trie::codec_ext::ReferenceNodeCodec;
use reference_trie::codec_noext::ReferenceNodeCodecNoExt;
use reference_trie::errors::ReferenceError;
use reference_trie::nibble::{Partial, Radix};
use reference_trie::node::{ChildReference, Node};

fn hash32(tag: u8) -> Vec<u8> {
    let mut h = vec![tag; 32];
    h[0] = tag.wrapping_add(1);
    h
}

#[test]
fn too_big_nibble_length() {
    // One more byte than the bound's worth of nibbles: the header count is
    // truncated, yet the node still decodes as a leaf.
    let input = vec![0u8; (65535 + 1) / 2 + 1];
    let partial = Partial { odd: 0, padded: 0, bytes: input };
    let enc = ReferenceNodeCodecNoExt::leaf_node(&partial, &[1], Radix::Sixteen);
    let dec = ReferenceNodeCodecNoExt::decode(&enc, Radix::Sixteen).unwrap();
    assert!(matches!(dec, Node::Leaf(..)));
}

#[test]
fn empty_node_round_trip_both_layouts() {
    let e1 = ReferenceNodeCodec::empty_node();
    assert_eq!(e1, vec![0]);
    assert!(ReferenceNodeCodec::is_empty_node(&e1));
    assert!(!ReferenceNodeCodec::is_empty_node(&[0, 0]));
    assert!(matches!(ReferenceNodeCodec::decode(&e1, Radix::Sixteen), Ok(Node::Empty)));
    let e2 = ReferenceNodeCodecNoExt::empty_node();
    assert_eq!(e2, vec![0]);
    assert!(ReferenceNodeCodecNoExt::is_empty_node(&e2));
    assert!(matches!(ReferenceNodeCodecNoExt::decode(&e2, Radix::Sixteen), Ok(Node::Empty)));
}

#[test]
fn leaf_node_ext_exact_bytes_and_round_trip() {
    // Three nibbles: odd nibble 0xA (dead high bits masked off), then 0xBC.
    let partial = Partial { odd: 1, padded: 0xfa, bytes: vec![0xbc] };
    let value: Vec<u8> = vec![7, 8, 9];
    let enc = ReferenceNodeCodec::leaf_node(&partial, &value, Radix::Sixteen);
    // tag 1 + 3 nibbles, masked odd byte, pair byte, compact(3) = 12, value
    assert_eq!(enc, vec![4, 0x0a, 0xbc, 12, 7, 8, 9]);
    match ReferenceNodeCodec::decode(&enc, Radix::Sixteen).unwrap() {
        Node::Leaf(key, val) => {
            assert_eq!(key.nibble_count, 3);
            assert_eq!(key.data, vec![0x0a, 0xbc]);
            assert_eq!(val, value);
        },
        _ => panic!("expected a leaf"),
    }
}

#[test]
fn leaf_node_ext_long_value_compact_prefix() {
    // A value longer than 63 bytes forces the two-byte compact length mode.
    let partial = Partial { odd: 0, padded: 0, bytes: vec![0x12] };
    let value = vec![0xddu8; 100];
    let enc = ReferenceNodeCodec::leaf_node(&partial, &value, Radix::Sixteen);
    assert_eq!(enc[0], 1 + 2);
    assert_eq!(enc[1], 0x12);
    // compact(100) in two-byte mode: (100 << 2) | 1 = 401 = 0x0191, low first
    assert_eq!(&enc[2..4], &[0x91, 0x01]);
    assert_eq!(enc.len(), 4 + 100);
    match ReferenceNodeCodec::decode(&enc, Radix::Sixteen).unwrap() {
        Node::Leaf(key, val) => {
            assert_eq!(key.nibble_count, 2);
            assert_eq!(val, value);
        },
        _ => panic!("expected a leaf"),
    }
}

#[test]
fn extension_node_round_trip_hash_child() {
    let child = hash32(0x42);
    let enc = ReferenceNodeCodec::extension_node(&[0x0a, 0xbc], 3, &ChildReference::Hash(child.clone()));
    assert_eq!(enc[0], 128 + 3);
    match ReferenceNodeCodec::decode(&enc, Radix::Sixteen).unwrap() {
        Node::Extension(key, range) => {
            assert_eq!(key.nibble_count, 3);
            assert_eq!(key.data, vec![0x0a, 0xbc]);
            assert_eq!(range, child);
            // a range of exactly the hash width reads back as a hash
            assert_eq!(ReferenceNodeCodec::try_decode_hash(&range, 32), Some(child));
        },
        _ => panic!("expected an extension"),
    }
}

#[test]
fn branch_node_ext_round_trip() {
    let mut children: Vec<Option<ChildReference>> = (0..16).map(|_| None).collect();
    children[1] = Some(ChildReference::Hash(hash32(0x11)));
    children[7] = Some(ChildReference::Inline(vec![0xca, 0xfe]));
    children[15] = Some(ChildReference::Hash(hash32(0x99)));
    let value = Some(vec![5u8, 6]);
    let enc = ReferenceNodeCodec::branch_node(&children, &value, Radix::Sixteen);
    assert_eq!(enc[0], 255);
    // bitmap: bits 1, 7, 15 -> 0x8082, low byte first
    assert_eq!(&enc[1..3], &[0x82, 0x80]);
    match ReferenceNodeCodec::decode(&enc, Radix::Sixteen).unwrap() {
        Node::Branch(ranges, val) => {
            assert_eq!(val, Some(vec![5, 6]));
            assert_eq!(ranges.len(), 16);
            assert_eq!(ranges[1], Some(hash32(0x11)));
            assert_eq!(ranges[7], Some(vec![0xca, 0xfe]));
            assert_eq!(ranges[15], Some(hash32(0x99)));
            for i in [0, 2, 3, 4, 5, 6, 8, 9, 10, 11, 12, 13, 14] {
                assert_eq!(ranges[i], None);
            }
        },
        _ => panic!("expected a branch"),
    }
}

#[test]
fn branch_node_ext_no_value_round_trip() {
    let mut children: Vec<Option<ChildReference>> = (0..16).map(|_| None).collect();
    children[0] = Some(ChildReference::Inline(vec![0x01]));
    let enc = ReferenceNodeCodec::branch_node(&children, &None, Radix::Sixteen);
    assert_eq!(enc[0], 254);
    match ReferenceNodeCodec::decode(&enc, Radix::Sixteen).unwrap() {
        Node::Branch(ranges, val) => {
            assert_eq!(val, None);
            assert_eq!(ranges[0], Some(vec![0x01]));
        },
        _ => panic!("expected a branch"),
    }
}

#[test]
fn leaf_node_noext_round_trip_boundary_counts() {
    // Nibble counts around the one-byte/continuation boundary of the size
    // codec: 0, 1, 62, 63, 64 nibbles.
    for count in [0usize, 1, 62, 63, 64] {
        let odd = (count % 2) as u8;
        let partial = Partial {
            odd,
            padded: if odd == 1 { 0x0f } else { 0 },
            bytes: vec![0x21; count / 2],
        };
        let value = vec![1u8, 2, 3];
        let enc = ReferenceNodeCodecNoExt::leaf_node(&partial, &value, Radix::Sixteen);
        match ReferenceNodeCodecNoExt::decode(&enc, Radix::Sixteen).unwrap() {
            Node::Leaf(key, val) => {
                assert_eq!(key.nibble_count, count);
                assert_eq!(val, value);
            },
            _ => panic!("expected a leaf"),
        }
    }
}

#[test]
fn branch_node_nibbled_round_trip_radix16() {
    let mut children: Vec<Option<ChildReference>> = (0..16).map(|_| None).collect();
    children[3] = Some(ChildReference::Hash(hash32(0x33)));
    children[10] = Some(ChildReference::Inline(vec![0xbe, 0xef, 0x01]));
    let value = Some(vec![0xaau8; 70]);
    let enc = ReferenceNodeCodecNoExt::branch_node_nibbled(
        &[0x05, 0x67],
        3,
        &children,
        &value,
        Radix::Sixteen,
    );
    match ReferenceNodeCodecNoExt::decode(&enc, Radix::Sixteen).unwrap() {
        Node::NibbledBranch(key, ranges, val) => {
            assert_eq!(key.nibble_count, 3);
            assert_eq!(key.data, vec![0x05, 0x67]);
            assert_eq!(val, Some(vec![0xaa; 70]));
            assert_eq!(ranges[3], Some(hash32(0x33)));
            assert_eq!(ranges[10], Some(vec![0xbe, 0xef, 0x01]));
            assert_eq!(ranges[0], None);
        },
        _ => panic!("expected a nibbled branch"),
    }
}

#[test]
fn branch_node_nibbled_round_trip_radix4() {
    let mut children: Vec<Option<ChildReference>> = (0..4).map(|_| None).collect();
    children[0] = Some(ChildReference::Inline(vec![0x0d]));
    children[2] = Some(ChildReference::Hash(hash32(0x22)));
    // three 2-bit nibbles: one odd nibble (value 2) then a full byte
    let enc = ReferenceNodeCodecNoExt::branch_node_nibbled(
        &[0x02, 0x1b],
        5,
        &children,
        &None,
        Radix::Four,
    );
    match ReferenceNodeCodecNoExt::decode(&enc, Radix::Four).unwrap() {
        Node::NibbledBranch(key, ranges, val) => {
            assert_eq!(key.nibble_count, 5);
            assert_eq!(key.data, vec![0x02, 0x1b]);
            assert_eq!(val, None);
            assert_eq!(ranges.len(), 4);
            assert_eq!(ranges[0], Some(vec![0x0d]));
            assert_eq!(ranges[1], None);
            assert_eq!(ranges[2], Some(hash32(0x22)));
            assert_eq!(ranges[3], None);
        },
        _ => panic!("expected a nibbled branch"),
    }
}

#[test]
fn noext_padding_bits_rejected() {
    // An odd nibble count whose first key byte has a nonzero high nibble.
    let clean = Partial { odd: 1, padded: 0x0a, bytes: vec![] };
    let enc = ReferenceNodeCodecNoExt::leaf_node(&clean, &[1], Radix::Sixteen);
    assert!(ReferenceNodeCodecNoExt::decode(&enc, Radix::Sixteen).is_ok());
    let mut dirty = enc.clone();
    dirty[1] |= 0xf0;
    assert_eq!(
        ReferenceNodeCodecNoExt::decode(&dirty, Radix::Sixteen),
        Err(ReferenceError::BadFormat)
    );
}

#[test]
fn noext_padding_bits_rejected_radix4() {
    // Count 3 at radix 4: the top two bits of the single key byte are padding.
    let clean = Partial { odd: 3, padded: 0x2d, bytes: vec![] };
    let enc = ReferenceNodeCodecNoExt::leaf_node(&clean, &[9], Radix::Four);
    assert!(ReferenceNodeCodecNoExt::decode(&enc, Radix::Four).is_ok());
    let mut dirty = enc.clone();
    dirty[1] |= 0x40;
    assert_eq!(
        ReferenceNodeCodecNoExt::decode(&dirty, Radix::Four),
        Err(ReferenceError::BadFormat)
    );
}

#[test]
fn decode_failure_cases() {
    // Empty input.
    assert_eq!(ReferenceNodeCodec::decode(&[], Radix::Sixteen), Err(ReferenceError::BadFormat));
    assert_eq!(
        ReferenceNodeCodecNoExt::decode(&[], Radix::Sixteen),
        Err(ReferenceError::BadFormat)
    );
    // A nonzero no-extension tag whose top two bits are clear.
    assert_eq!(
        ReferenceNodeCodecNoExt::decode(&[0x05], Radix::Sixteen),
        Err(ReferenceError::BadFormat)
    );
    // An extension-layout branch missing its bitmap bytes.
    assert_eq!(
        ReferenceNodeCodec::decode(&[254, 0], Radix::Sixteen),
        Err(ReferenceError::BadFormat)
    );
    // A leaf whose value runs past the end of the input.
    assert_eq!(
        ReferenceNodeCodec::decode(&[2, 0xab, 40, 1, 2], Radix::Sixteen),
        Err(ReferenceError::BadFormat)
    );
    // A 4-ary branch whose bitmap has a reserved bit set.
    let mut children: Vec<Option<ChildReference>> = (0..4).map(|_| None).collect();
    children[1] = Some(ChildReference::Inline(vec![0x07]));
    let enc = ReferenceNodeCodecNoExt::branch_node_nibbled(&[], 0, &children, &None, Radix::Four);
    let bitmap_at = enc.len() - 2 - 1;
    let mut dirty = enc.clone();
    dirty[bitmap_at] |= 0x80;
    assert!(ReferenceNodeCodecNoExt::decode(&enc, Radix::Four).is_ok());
    assert_eq!(
        ReferenceNodeCodecNoExt::decode(&dirty, Radix::Four),
        Err(ReferenceError::BadFormat)
    );
}

#[test]
fn tie_break_dead_padding_bits_never_reach_the_wire() {
    // Two representations of the same three-nibble key, differing only in
    // the dead bits of the odd-nibble byte, encode byte-identically.
    let p1 = Partial { odd: 1, padded: 0x0a, bytes: vec![0xbc] };
    let p2 = Partial { odd: 1, padded: 0xfa, bytes: vec![0xbc] };
    let v = vec![1u8, 2];
    assert_eq!(
        ReferenceNodeCodec::leaf_node(&p1, &v, Radix::Sixteen),
        ReferenceNodeCodec::leaf_node(&p2, &v, Radix::Sixteen)
    );
    assert_eq!(
        ReferenceNodeCodecNoExt::leaf_node(&p1, &v, Radix::Sixteen),
        ReferenceNodeCodecNoExt::leaf_node(&p2, &v, Radix::Sixteen)
    );
}

#[test]
fn value_length_prefix_matches_outside_codec() {
    // The length prefix written before a value is the outside compact codec's
    // encoding of that value, byte for byte.
    let value = vec![0x5au8; 70];
    let partial = Partial { odd: 0, padded: 0, bytes: vec![] };
    let enc = ReferenceNodeCodec::leaf_node(&partial, &value, Radix::Sixteen);
    let expected: Vec<u8> = parity_codec::Encode::encode(&&value[..]);
    assert_eq!(&enc[1..], &expected[..]);
}

#[test]
fn leaf_node_ext_round_trip_at_tag_range_top() {
    // 125 and 126 nibbles: the last counts the extension-layout leaf tag
    // range can carry.
    for count in [125usize, 126] {
        let odd = (count % 2) as u8;
        let partial = Partial {
            odd,
            padded: if odd == 1 { 0x03 } else { 0 },
            bytes: vec![0x44; count / 2],
        };
        let enc = ReferenceNodeCodec::leaf_node(&partial, &[0xee], Radix::Sixteen);
        assert_eq!(enc[0] as usize, 1 + count);
        match ReferenceNodeCodec::decode(&enc, Radix::Sixteen).unwrap() {
            Node::Leaf(key, val) => {
                assert_eq!(key.nibble_count, count);
                assert_eq!(val, vec![0xee]);
            },
            _ => panic!("expected a leaf"),
        }
    }
}

#[test]
fn leaf_node_noext_round_trip_at_bound() {
    // 65534 and 65535 nibbles: the last counts the no-extension header can
    // carry without truncation.
    for count in [65534usize, 65535] {
        let odd = (count % 2) as u8;
        let partial = Partial {
            odd,
            padded: if odd == 1 { 0x09 } else { 0 },
            bytes: vec![0x77; count / 2],
        };
        let enc = ReferenceNodeCodecNoExt::leaf_node(&partial, &[1, 2], Radix::Sixteen);
        match ReferenceNodeCodecNoExt::decode(&enc, Radix::Sixteen).unwrap() {
            Node::Leaf(key, val) => {
                assert_eq!(key.nibble_count, count);
                assert_eq!(val, vec![1, 2]);
            },
            _ => panic!("expected a leaf"),
        }
    }
}
