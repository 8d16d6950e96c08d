use reference_trie::size_codec::{encode_size_and_prefix, decode_size, size_and_prefix_iterator};
use reference_trie::bitmap::{BitMap16, BitMap4};
use reference_trie::errors::ReferenceError;

#[test]
fn size_encode_limit_values() {
    let sizes: [usize; 11] = [0, 1, 62, 63, 64, 317, 318, 319, 572, 573, 574];
    let encs: [Vec<u8>; 11] = [
        vec![0],
        vec![1],
        vec![0x3e],
        vec![0x3f, 0],
        vec![0x3f, 1],
        vec![0x3f, 0xfe],
        vec![0x3f, 0xff, 0],
        vec![0x3f, 0xff, 1],
        vec![0x3f, 0xff, 0xfe],
        vec![0x3f, 0xff, 0xff, 0],
        vec![0x3f, 0xff, 0xff, 1],
    ];
    for i in 0..sizes.len() {
        let mut enc = Vec::new();
        encode_size_and_prefix(sizes[i], 0, &mut enc);
        assert_eq!(enc, encs[i]);
        let s_dec = decode_size(encs[i][0], &encs[i], 1);
        assert_eq!(s_dec, Some((sizes[i], encs[i].len())));
    }
}

#[test]
fn test_encoding_simple_trie() {
    for prefix in [64u8, 128, 192] {
        for i in (0..1000).chain(65533..65537) {
            let output = size_and_prefix_iterator(i, prefix);
            let first = output[0];
            assert_eq!(first & (0b11 << 6), prefix);
            let v = decode_size(first, &output, 1);
            let expected = if i > 65535 { 65535 } else { i };
            assert_eq!(v, Some((expected, output.len())));
        }
    }
}

#[test]
fn size_decode_rejects_unterminated_run() {
    // A sentinel first byte followed by nothing but continuation bytes never
    // reaches a terminal byte below 255 within the bound.
    let data = vec![255u8; 300];
    assert_eq!(decode_size(0x3f, &data, 0), None);
}

#[test]
fn bitmap16_round_trip_and_layout() {
    let flags: [bool; 16] = [
        true, false, true, false, false, false, false, true, true, false, false, false, false,
        false, false, true,
    ];
    let enc = BitMap16::encode(&flags);
    assert_eq!(enc.len(), 2);
    // value = 0b1000_0001_1000_0101 = 0x8185, stored low byte first
    assert_eq!(enc, vec![0x85, 0x81]);
    let bm = BitMap16::decode(&enc).unwrap();
    for i in 0..16 {
        assert_eq!(bm.value_at(i), flags[i]);
    }
    assert_eq!(
        BitMap16::decode(&[0x85]),
        Err(ReferenceError::BadFormat)
    );
}

#[test]
fn bitmap4_low_values_decode() {
    // Every low-nibble value decodes, and each bit lands on its slot.
    for v in 0u8..16 {
        let bm = BitMap4::decode(&[v]).unwrap();
        for i in 0..4 {
            assert_eq!(bm.value_at(i), v & (1 << i) != 0);
        }
    }
}

#[test]
fn bitmap4_reserved_bits_rejected() {
    // Any of the top four bits set is a format error, as is an empty input.
    for high in [0x10u8, 0x20, 0x40, 0x80, 0xf0, 0x11, 0xa5] {
        assert_eq!(BitMap4::decode(&[high]), Err(ReferenceError::BadFormat));
    }
    assert_eq!(BitMap4::decode(&[]), Err(ReferenceError::BadFormat));
}

#[test]
fn bitmap4_encode_round_trip() {
    let flags: [bool; 4] = [true, false, false, true];
    let enc = BitMap4::encode(&flags);
    assert_eq!(enc, vec![0b1001]);
    let bm = BitMap4::decode(&enc).unwrap();
    for i in 0..4 {
        assert_eq!(bm.value_at(i), flags[i]);
    }
}
