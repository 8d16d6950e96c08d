//! Decoding a branch's child ranges against its bitmap.
//!
//! For every populated slot the wire holds a length-prefixed byte range; the
//! decoder walks the slots in order and collects each populated slot's range
//! as one entry of a running table over the shared remainder buffer.

use vstd::prelude::*;
use crate::compact::{compact_decode_spec, compact_u32_decode, lemma_compact_decode_len};
use crate::bitmap::{get_bit, BitMap16, BitMap4};
use crate::errors::ReferenceError;
use crate::bytes::{take, take_vec};
use crate::nibble::Radix;
use crate::node::{NibbleData, NibblesModel};

verus! {

/// Prepends already-decoded slots to a child-decoding result.
pub open spec fn prepend_children(
    v: Seq<Option<Seq<u8>>>,
    o: Option<(Seq<Option<Seq<u8>>>, int)>,
) -> Option<(Seq<Option<Seq<u8>>>, int)> {
    match o {
        None => None,
        Some((s, e)) => Some((v + s, e)),
    }
}

/// What decoding child slots `i .. n` yields from position `pos`: one entry
/// per slot (a byte range for a populated slot, nothing for an empty one)
/// and the end position; or nothing when a length prefix is unreadable or a
/// range runs past the input.
pub open spec fn decode_children_spec(data: Seq<u8>, pos: int, bm: nat, n: int, i: int) -> Option<
    (Seq<Option<Seq<u8>>>, int),
>
    decreases (if i < n {
        n - i
    } else {
        0
    }),
{
    if i >= n {
        Some((Seq::empty(), pos))
    } else if !get_bit(bm, i as nat) {
        prepend_children(
            seq![None::<Seq<u8>>],
            decode_children_spec(data, pos, bm, n, i + 1),
        )
    } else {
        match compact_decode_spec(data.skip(pos)) {
            None => None,
            Some((cnt, k)) => {
                if pos + k + cnt <= data.len() {
                    prepend_children(
                        seq![Some(data.subrange(pos + k, pos + k + cnt))],
                        decode_children_spec(data, pos + k + cnt, bm, n, i + 1),
                    )
                } else {
                    None
                }
            },
        }
    }
}

/// Reads the child ranges of a branch whose bitmap value is `bm` and whose
/// slot count is `n`, starting at `pos`.
pub fn decode_children(data: &[u8], pos: usize, bm: u16, n: usize) -> (r: Result<
    (Vec<Option<Vec<u8>>>, usize),
    ReferenceError,
>)
    requires
        pos <= data@.len(),
        n <= 16,
    ensures
        match r {
            Ok((cs, end)) => decode_children_spec(data@, pos as int, bm as nat, n as int, 0)
                == Some((cs.deep_view(), end as int)) && end <= data@.len() && cs@.len() == n,
            Err(e) => decode_children_spec(data@, pos as int, bm as nat, n as int, 0) == None::<
                (Seq<Option<Seq<u8>>>, int),
            > && e == ReferenceError::BadFormat,
        },
{
    let ghost full = decode_children_spec(data@, pos as int, bm as nat, n as int, 0);
    let data_len = data.len();
    let mut children: Vec<Option<Vec<u8>>> = Vec::new();
    let mut p = pos;
    let mut i: usize = 0;
    while i < n
        invariant
            i <= n <= 16,
            data@.len() == data_len,
            pos <= p <= data@.len(),
            children@.len() == i,
            full == decode_children_spec(data@, pos as int, bm as nat, n as int, 0),
            prepend_children(
                children.deep_view(),
                decode_children_spec(data@, p as int, bm as nat, n as int, i as int),
            ) == full,
        decreases n - i,
    {
        let ghost pre_children = children.deep_view();
        let ghost step = decode_children_spec(data@, p as int, bm as nat, n as int, i as int);
        let bitmap = BitMap16(bm);
        if bitmap.value_at(i) {
            match compact_u32_decode(data, p) {
                None => {
                    proof {
                        assert(step == None::<(Seq<Option<Seq<u8>>>, int)>);
                    }
                    return Err(ReferenceError::BadFormat);
                },
                Some((cnt, np)) => {
                    proof {
                        lemma_compact_decode_len(data@.skip(p as int));
                        let spec_r = compact_decode_spec(data@.skip(p as int));
                        assert(spec_r is Some);
                        assert(cnt == spec_r->Some_0.0 && np == p + spec_r->Some_0.1);
                    }
                    match take_vec(data, np, cnt as usize) {
                        None => {
                            proof {
                                assert(step == None::<(Seq<Option<Seq<u8>>>, int)>);
                            }
                            return Err(ReferenceError::BadFormat);
                        },
                        Some(range) => {
                            proof {
                                let entry = Some(
                                    data@.subrange(np as int, np as int + cnt as int),
                                );
                                let tail = decode_children_spec(
                                    data@,
                                    np as int + cnt as int,
                                    bm as nat,
                                    n as int,
                                    i as int + 1,
                                );
                                assert(step == prepend_children(seq![entry], tail));
                                assert(pre_children.push(entry) =~~= pre_children + seq![entry]);
                                if tail is Some {
                                    assert((pre_children + seq![entry]) + tail->Some_0.0 =~~= (
                                    pre_children + (seq![entry] + tail->Some_0.0)));
                                }
                            }
                            children.push(Some(range));
                            proof {
                                assert(children.deep_view() =~~= pre_children.push(
                                    Some(data@.subrange(np as int, np as int + cnt as int)),
                                ));
                            }
                            p = np + cnt as usize;
                        },
                    }
                },
            }
        } else {
            proof {
                let entry = None::<Seq<u8>>;
                let tail = decode_children_spec(
                    data@,
                    p as int,
                    bm as nat,
                    n as int,
                    i as int + 1,
                );
                assert(step == prepend_children(seq![entry], tail));
                assert(pre_children.push(entry) =~~= pre_children + seq![entry]);
                if tail is Some {
                    assert((pre_children + seq![entry]) + tail->Some_0.0 =~~= (pre_children + (
                    seq![entry] + tail->Some_0.0)));
                }
            }
            children.push(None);
            proof {
                assert(children.deep_view() =~~= pre_children.push(None::<Seq<u8>>));
            }
        }
        i += 1;
    }
    proof {
        assert(decode_children_spec(data@, p as int, bm as nat, n as int, n as int) == Some(
            (Seq::<Option<Seq<u8>>>::empty(), p as int),
        ));
        assert(children.deep_view() + Seq::<Option<Seq<u8>>>::empty() =~~= children.deep_view());
    }
    Ok((children, p))
}

/// Decoding child slots inverts their encoding: when the wire from `pos` on
/// holds exactly the slots' contributions and the bitmap's bits agree with
/// which slots are populated, decoding yields the slots back and consumes
/// everything.
pub proof fn lemma_children_wire_round_trip(
    cs: Seq<Option<Seq<u8>>>,
    data: Seq<u8>,
    pos: int,
    bm: nat,
    i: int,
)
    requires
        0 <= i <= cs.len(),
        0 <= pos,
        pos + crate::node::children_wire(cs.skip(i)).len() == data.len(),
        data.skip(pos) == crate::node::children_wire(cs.skip(i)),
        forall|j: int| i <= j < cs.len() ==> (get_bit(bm, j as nat) <==> cs[j] is Some),
        forall|j: int| 0 <= j < cs.len() ==> (#[trigger] cs[j] matches Some(b) ==> b.len()
            <= u32::MAX),
    ensures
        decode_children_spec(data, pos, bm, cs.len() as int, i) == Some((cs.skip(i), data.len() as int)),
    decreases cs.len() - i,
{
    let n = cs.len() as int;
    if i == n {
        assert(cs.skip(i) =~~= Seq::<Option<Seq<u8>>>::empty());
        assert(pos == data.len());
    } else {
        let rest = cs.skip(i + 1);
        assert(cs.skip(i).skip(1) =~~= rest);
        assert(cs.skip(i)[0] == cs[i]);
        match cs[i] {
            None => {
                assert(!get_bit(bm, i as nat));
                assert(crate::node::children_wire(cs.skip(i)) == crate::node::child_entry_wire(
                    None,
                ) + crate::node::children_wire(rest));
                assert(data.skip(pos) =~= crate::node::children_wire(rest));
                lemma_children_wire_round_trip(cs, data, pos, bm, i + 1);
                assert(seq![None::<Seq<u8>>] + cs.skip(i + 1) =~~= cs.skip(i));
            },
            Some(b) => {
                assert(get_bit(bm, i as nat));
                let vw = crate::compact::value_wire(b);
                let cw_rest = crate::node::children_wire(rest);
                assert(crate::node::children_wire(cs.skip(i)) == vw + cw_rest);
                let len_b = b.len() as u32;
                crate::compact::lemma_compact_round_trip(len_b, b + cw_rest);
                assert(data.skip(pos) =~= crate::compact::compact_of(len_b) + (b + cw_rest));
                let k = crate::compact::compact_of(len_b).len() as int;
                assert(compact_decode_spec(data.skip(pos)) == Some((len_b, k as nat)));
                assert(pos + k + len_b + cw_rest.len() == data.len());
                assert(data.subrange(pos + k, pos + k + len_b) =~= data.skip(pos).subrange(
                    k,
                    k + len_b,
                ));
                assert(data.skip(pos).subrange(k, k + len_b) =~= b);
                assert(data.skip(pos + k + len_b) =~= data.skip(pos).skip(k + len_b));
                assert(data.skip(pos).skip(k + len_b) =~= cw_rest);
                lemma_children_wire_round_trip(cs, data, pos + k + len_b, bm, i + 1);
                assert(seq![Some(b)] + cs.skip(i + 1) =~~= cs.skip(i));
                assert(seq![Some(data.subrange(pos + k, pos + k + len_b))] + cs.skip(i + 1) =~~= cs.skip(
                    i,
                ));
            },
        }
    }
}

/// Decoding a branch's remainder inverts its encoding: when the wire from
/// `pos` on holds exactly the optional length-prefixed value and the
/// children's contributions, and the bitmap's bits agree with which slots
/// are populated, decoding yields the value and the slots back.
pub proof fn lemma_branch_body_round_trip(
    data: Seq<u8>,
    pos: int,
    children: Seq<Option<Seq<u8>>>,
    value: Option<Seq<u8>>,
    bm: nat,
    radix: Radix,
)
    requires
        0 <= pos,
        children.len() == radix.spec_nibble_length(),
        data.skip(pos) == (match value {
            Some(v) => crate::compact::value_wire(v),
            None => Seq::<u8>::empty(),
        }) + crate::node::children_wire(children),
        pos + (match value {
            Some(v) => crate::compact::value_wire(v).len(),
            None => 0nat,
        }) + crate::node::children_wire(children).len() == data.len(),
        forall|j: int| 0 <= j < children.len() ==> (get_bit(bm, j as nat) <==> children[j] is Some),
        forall|j: int| 0 <= j < children.len() ==> (#[trigger] children[j] matches Some(b)
            ==> b.len() <= u32::MAX),
        value matches Some(v) ==> v.len() <= u32::MAX,
    ensures
        decode_branch_body_spec(data, pos, value is Some, bm, radix) == Some((children, value)),
{
    let cw = crate::node::children_wire(children);
    assert(children.skip(0) =~~= children);
    match value {
        Some(v) => {
            let len_v = v.len() as u32;
            crate::compact::lemma_compact_round_trip(len_v, v + cw);
            assert(data.skip(pos) =~= crate::compact::compact_of(len_v) + (v + cw));
            let k = crate::compact::compact_of(len_v).len() as int;
            assert(compact_decode_spec(data.skip(pos)) == Some((len_v, k as nat)));
            let cpos = pos + k + len_v;
            assert(data.subrange(pos + k, cpos) =~= data.skip(pos).subrange(k, k + len_v));
            assert(data.skip(pos).subrange(k, k + len_v) =~= v);
            assert(data.skip(cpos) =~= data.skip(pos).skip(k + len_v));
            assert(data.skip(pos).skip(k + len_v) =~= cw);
            lemma_children_wire_round_trip(children, data, cpos, bm, 0);
        },
        None => {
            assert(data.skip(pos) =~= cw);
            lemma_children_wire_round_trip(children, data, pos, bm, 0);
        },
    }
}

/// What decoding a bitmap at `pos` yields: the bitmap value, or nothing on a
/// short read or (for radix 4) a reserved bit set.
pub open spec fn decode_bitmap_spec(data: Seq<u8>, pos: int, radix: Radix) -> Option<nat> {
    if pos + radix.spec_bitmap_len() > data.len() {
        None
    } else {
        match radix {
            Radix::Sixteen => Some((data[pos] + 256 * data[pos + 1]) as nat),
            Radix::Four => if data[pos] < 16 {
                Some(data[pos] as nat)
            } else {
                None
            },
        }
    }
}

/// Reads a child bitmap at `pos`.
pub fn decode_bitmap(data: &[u8], pos: usize, radix: Radix) -> (r: Result<u16, ReferenceError>)
    requires
        pos <= data@.len(),
    ensures
        match r {
            Ok(bm) => decode_bitmap_spec(data@, pos as int, radix) == Some(bm as nat),
            Err(e) => decode_bitmap_spec(data@, pos as int, radix) == None::<nat> && e
                == ReferenceError::BadFormat,
        },
{
    let bl = radix.bitmap_len();
    match take(data, pos, bl) {
        None => Err(ReferenceError::BadFormat),
        Some(slice) => {
            match radix {
                Radix::Sixteen => {
                    match BitMap16::decode(slice) {
                        Ok(bm) => Ok(bm.0),
                        Err(e) => Err(e),
                    }
                },
                Radix::Four => {
                    match BitMap4::decode(slice) {
                        Ok(bm) => Ok(bm.0 as u16),
                        Err(e) => Err(e),
                    }
                },
            }
        },
    }
}

/// What decoding a partial key of `c` nibbles followed by one
/// length-prefixed byte range yields: the common remainder shape of leaf and
/// extension nodes.
pub open spec fn decode_key_range_spec(data: Seq<u8>, pos: int, c: nat, radix: Radix) -> Option<
    (NibblesModel, Seq<u8>),
> {
    let nb = crate::codec_ext::nibble_bytes_len(c, radix) as int;
    if pos + nb > data.len() {
        None
    } else {
        match compact_decode_spec(data.skip(pos + nb)) {
            None => None,
            Some((cnt, k)) => {
                if pos + nb + k + cnt <= data.len() {
                    Some(
                        (
                            NibblesModel { count: c, data: data.subrange(pos, pos + nb) },
                            data.subrange(pos + nb + k, pos + nb + k + cnt),
                        ),
                    )
                } else {
                    None
                }
            },
        }
    }
}

/// Reads a partial key of `c` nibbles and a length-prefixed byte range.
pub fn decode_key_range(data: &[u8], pos: usize, c: usize, radix: Radix) -> (r: Result<
    (NibbleData, Vec<u8>),
    ReferenceError,
>)
    requires
        pos <= data@.len(),
    ensures
        match r {
            Ok((k, v)) => decode_key_range_spec(data@, pos as int, c as nat, radix) == Some(
                ((k@, v@)),
            ),
            Err(e) => decode_key_range_spec(data@, pos as int, c as nat, radix) == None::<
                (NibblesModel, Seq<u8>),
            > && e == ReferenceError::BadFormat,
        },
{
    let data_len = data.len();
    proof {
        assert(data@.len() == data_len);
    }
    let nb = crate::codec_ext::nibble_bytes_count(c, radix);
    match take_vec(data, pos, nb) {
        None => Err(ReferenceError::BadFormat),
        Some(key_bytes) => {
            let kp = pos + nb;
            match compact_u32_decode(data, kp) {
                None => Err(ReferenceError::BadFormat),
                Some((cnt, np)) => {
                    proof {
                        lemma_compact_decode_len(data@.skip(kp as int));
                        let spec_r = compact_decode_spec(data@.skip(kp as int));
                        assert(spec_r is Some);
                        assert(cnt == spec_r->Some_0.0 && np == kp + spec_r->Some_0.1);
                    }
                    match take_vec(data, np, cnt as usize) {
                        None => Err(ReferenceError::BadFormat),
                        Some(range) => Ok(
                            (NibbleData { nibble_count: c, data: key_bytes }, range),
                        ),
                    }
                },
            }
        },
    }
}

/// What decoding a branch's remainder (after its bitmap) yields: the
/// optional length-prefixed value, then the child ranges.
pub open spec fn decode_branch_body_spec(
    data: Seq<u8>,
    pos: int,
    has_value: bool,
    bm: nat,
    radix: Radix,
) -> Option<(Seq<Option<Seq<u8>>>, Option<Seq<u8>>)> {
    let n = radix.spec_nibble_length() as int;
    if has_value {
        match compact_decode_spec(data.skip(pos)) {
            None => None,
            Some((cnt, k)) => {
                if pos + k + cnt <= data.len() {
                    match decode_children_spec(data, pos + k + cnt, bm, n, 0) {
                        None => None,
                        Some((cs, _end)) => Some(
                            (cs, Some(data.subrange(pos + k, pos + k + cnt))),
                        ),
                    }
                } else {
                    None
                }
            },
        }
    } else {
        match decode_children_spec(data, pos, bm, n, 0) {
            None => None,
            Some((cs, _end)) => Some((cs, None)),
        }
    }
}

/// Reads a branch's optional value and its child ranges.
pub fn decode_branch_body(data: &[u8], pos: usize, has_value: bool, bm: u16, radix: Radix) -> (r:
    Result<(Vec<Option<Vec<u8>>>, Option<Vec<u8>>), ReferenceError>)
    requires
        pos <= data@.len(),
    ensures
        match r {
            Ok((cs, v)) => decode_branch_body_spec(data@, pos as int, has_value, bm as nat, radix)
                == Some((cs.deep_view(), v.deep_view())) && cs@.len()
                == radix.spec_nibble_length(),
            Err(e) => decode_branch_body_spec(data@, pos as int, has_value, bm as nat, radix)
                == None::<(Seq<Option<Seq<u8>>>, Option<Seq<u8>>)> && e
                == ReferenceError::BadFormat,
        },
{
    let data_len = data.len();
    proof {
        assert(data@.len() == data_len);
    }
    let n = radix.nibble_length();
    if has_value {
        match compact_u32_decode(data, pos) {
            None => Err(ReferenceError::BadFormat),
            Some((cnt, np)) => {
                proof {
                    lemma_compact_decode_len(data@.skip(pos as int));
                    let spec_r = compact_decode_spec(data@.skip(pos as int));
                    assert(spec_r is Some);
                    assert(cnt == spec_r->Some_0.0 && np == pos + spec_r->Some_0.1);
                }
                match take_vec(data, np, cnt as usize) {
                    None => Err(ReferenceError::BadFormat),
                    Some(value) => {
                        match decode_children(data, np + cnt as usize, bm, n) {
                            Err(e) => Err(e),
                            Ok((cs, _end)) => Ok((cs, Some(value))),
                        }
                    },
                }
            },
        }
    } else {
        match decode_children(data, pos, bm, n) {
            Err(e) => Err(e),
            Ok((cs, _end)) => Ok((cs, None)),
        }
    }
}

} // verus!
