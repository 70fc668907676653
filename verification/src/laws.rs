//! Properties of the specification decoder that hold beyond any one
//! function's contract: record accounting, sentinel behaviour, and
//! what the two array encodings yield.

use vstd::prelude::*;

use crate::adapters::inflate_of;
use crate::bytes::{as_i32, le32};
use crate::model::{
    i32_elems, spec_decode_fbx, spec_decode_node, spec_decode_node_list, spec_decode_property,
    spec_decode_props, NodeView, PropView,
};
use crate::types::FbxError;

verus! {

/// How many nodes a forest holds, descendants included.
pub open spec fn count_forest(ns: Seq<NodeView>) -> nat
    decreases ns, 0int,
{
    if ns.len() == 0 {
        0
    } else {
        count_node(ns[0]) + count_forest(ns.drop_first())
    }
}

/// How many nodes a tree holds: the node itself and its descendants.
pub open spec fn count_node(m: NodeView) -> nat
    decreases m, 1int,
{
    1 + count_forest(m.subnodes)
}

/// How many non-sentinel node records the record at `pos` spans,
/// itself included: zero for a sentinel, and otherwise one plus the
/// records of its child list. Where the record does not decode, the
/// count stops at what is readable; the lemmas below only speak of
/// inputs that decode.
pub open spec fn spec_record_count(s: Seq<u8>, pos: int) -> nat
    decreases s.len() - pos, 0int,
{
    if pos + 13 > s.len() {
        0
    } else {
        let end_offset = le32(s, pos);
        let n_props = le32(s, pos + 4);
        let props_size = le32(s, pos + 8);
        let name_len = s[pos + 12] as int;
        if end_offset == 0 && n_props == 0 && props_size == 0 && name_len == 0 {
            0
        } else if pos + 13 + name_len > s.len() {
            1
        } else {
            match spec_decode_props(s, pos + 13 + name_len, n_props as nat) {
                Err(_) => 1,
                Ok((_, pc)) => {
                    let p2 = pos + 13 + name_len + pc;
                    if p2 > s.len() {
                        1
                    } else {
                        1 + spec_record_list_count(s, p2, end_offset)
                    }
                },
            }
        }
    }
}

/// How many non-sentinel node records the node list at `pos`, bounded
/// by `end`, spans.
pub open spec fn spec_record_list_count(s: Seq<u8>, pos: int, end: int) -> nat
    decreases s.len() - pos, 1int,
{
    if pos + 13 > s.len() {
        0
    } else {
        match spec_decode_node(s, pos) {
            Err(_) => spec_record_count(s, pos),
            Ok((None, _)) => 0,
            Ok((Some(m), c)) => if c < 13 {
                0
            } else {
                let p1 = pos + c;
                if p1 >= end {
                    spec_record_count(s, pos)
                } else if p1 > s.len() {
                    spec_record_count(s, pos)
                } else {
                    spec_record_count(s, pos) + spec_record_list_count(s, p1, end)
                }
            },
        }
    }
}

/// A node record that decodes yields exactly one node per non-sentinel
/// record it spans: none for a sentinel, and otherwise itself plus its
/// descendants.
pub proof fn lemma_node_count(s: Seq<u8>, pos: int)
    requires
        spec_decode_node(s, pos) is Ok,
    ensures
        match (spec_decode_node(s, pos)->Ok_0).0 {
            None => spec_record_count(s, pos) == 0,
            Some(m) => count_node(m) == spec_record_count(s, pos),
        },
    decreases s.len() - pos, 0int,
{
    let name_len = s[pos + 12] as int;
    let n_props = le32(s, pos + 4);
    match (spec_decode_node(s, pos)->Ok_0).0 {
        None => {},
        Some(m) => {
            let props_res = spec_decode_props(s, pos + 13 + name_len, n_props as nat);
            let pc = (props_res->Ok_0).1;
            let p2 = pos + 13 + name_len + pc;
            lemma_list_count(s, p2, le32(s, pos));
        },
    }
}

/// A node list that decodes yields exactly one node per non-sentinel
/// record it spans.
pub proof fn lemma_list_count(s: Seq<u8>, pos: int, end: int)
    requires
        spec_decode_node_list(s, pos, end) is Ok,
    ensures
        count_forest((spec_decode_node_list(s, pos, end)->Ok_0).0) == spec_record_list_count(
            s,
            pos,
            end,
        ),
    decreases s.len() - pos, 1int,
{
    lemma_node_count(s, pos);
    match spec_decode_node(s, pos) {
        Ok((Some(m), c)) => {
            assert(count_node(m) == spec_record_count(s, pos));
            let p1 = pos + c;
            if p1 >= end {
                assert(seq![m][0] == m);
                assert(seq![m].drop_first() =~= Seq::<NodeView>::empty());
                assert(count_forest(Seq::<NodeView>::empty()) == 0);
                assert(count_forest(seq![m]) == count_node(m));
                assert(spec_record_list_count(s, pos, end) == spec_record_count(s, pos));
            } else {
                lemma_list_count(s, p1, end);
                let rest = (spec_decode_node_list(s, p1, end)->Ok_0).0;
                assert(count_forest(rest) == spec_record_list_count(s, p1, end));
                assert((seq![m] + rest)[0] == m);
                assert((seq![m] + rest).drop_first() =~= rest);
                assert(count_forest(seq![m] + rest) == count_node(m) + count_forest(rest));
                assert((spec_decode_node_list(s, pos, end)->Ok_0).0 == seq![m] + rest);
                assert(spec_record_list_count(s, pos, end) == spec_record_count(s, pos)
                    + spec_record_list_count(s, p1, end));
            }
        },
        Ok((None, _)) => {
            assert(count_forest(Seq::<NodeView>::empty()) == 0);
            assert(spec_record_list_count(s, pos, end) == 0);
        },
        _ => {},
    }
}

/// A whole file that decodes yields a forest whose node count equals
/// the number of non-sentinel node records the file holds.
pub proof fn lemma_fbx_count(s: Seq<u8>)
    requires
        spec_decode_fbx(s) is Ok,
    ensures
        count_forest(spec_decode_fbx(s)->Ok_0) == spec_record_list_count(
            s,
            27,
            0xffff_ffff_ffff_ffff,
        ),
{
    lemma_list_count(s, 27, 0xffff_ffff_ffff_ffff);
}

/// A sentinel — thirteen zero bytes where a node record is expected —
/// immediately ends the node list at that position, spans exactly
/// those thirteen bytes, and contributes no node.
pub proof fn lemma_sentinel_ends_list(s: Seq<u8>, pos: int, end: int)
    requires
        0 <= pos,
        pos + 13 <= s.len(),
        forall|i: int| pos <= i < pos + 13 ==> s[i] == 0,
    ensures
        spec_decode_node_list(s, pos, end) == Ok::<_, FbxError>(
            (Seq::<NodeView>::empty(), 13nat),
        ),
{
    assert(s[pos] == 0 && s[pos + 1] == 0 && s[pos + 2] == 0 && s[pos + 3] == 0);
    assert(s[pos + 4] == 0 && s[pos + 5] == 0 && s[pos + 6] == 0 && s[pos + 7] == 0);
    assert(s[pos + 8] == 0 && s[pos + 9] == 0 && s[pos + 10] == 0 && s[pos + 11] == 0);
    assert(s[pos + 12] == 0);
    assert(spec_decode_node(s, pos) == Ok::<_, FbxError>((None::<NodeView>, 13nat)));
}

/// A raw (encoding 0) i32 array of count `n` spans exactly `12 + 4n`
/// bytes after its tag, and its elements are the `n` consecutive
/// little-endian 4-byte groups of the input, in order.
pub proof fn lemma_raw_i32_array(s: Seq<u8>, pos: int)
    requires
        0 <= pos,
        s[pos] == 105,
        le32(s, pos + 5) == 0,
        pos + 13 + 4 * le32(s, pos + 1) <= s.len(),
    ensures
        spec_decode_property(s, pos) is Ok,
        (spec_decode_property(s, pos)->Ok_0).1 == 13 + 4 * le32(s, pos + 1),
        ({
            let elems = (spec_decode_property(s, pos)->Ok_0).0->I32Array_0;
            &&& (spec_decode_property(s, pos)->Ok_0).0 == PropView::I32Array(elems)
            &&& elems.len() == le32(s, pos + 1)
            &&& forall|k: int|
                0 <= k < le32(s, pos + 1) ==> elems[k] == as_i32(le32(s, pos + 13 + 4 * k))
        }),
{
    let n = le32(s, pos + 1);
    let d = s.subrange(pos + 13, pos + 13 + 4 * n);
    assert forall|k: int| 0 <= k < n implies i32_elems(d, n)[k] == as_i32(
        le32(s, pos + 13 + 4 * k),
    ) by {
        assert(d[4 * k] == s[pos + 13 + 4 * k]);
        assert(d[4 * k + 1] == s[pos + 13 + 4 * k + 1]);
        assert(d[4 * k + 2] == s[pos + 13 + 4 * k + 2]);
        assert(d[4 * k + 3] == s[pos + 13 + 4 * k + 3]);
    }
}

/// A compressed (encoding 1) i32 array yields exactly the elements of
/// its inflated payload, whatever compressed byte sequence stands in
/// the file, and spans exactly `12 + compressed_length` bytes after
/// its tag.
pub proof fn lemma_compressed_i32_array(s: Seq<u8>, pos: int, d: Seq<u8>)
    requires
        0 <= pos,
        s[pos] == 105,
        le32(s, pos + 5) == 1,
        pos + 13 + le32(s, pos + 9) <= s.len(),
    ensures
        (inflate_of(s.subrange(pos + 13, pos + 13 + le32(s, pos + 9))) == Some(d) && d.len() == 4
            * le32(s, pos + 1)) ==> spec_decode_property(s, pos) == Ok::<_, FbxError>(
            (
                PropView::I32Array(i32_elems(d, le32(s, pos + 1))),
                (13 + le32(s, pos + 9)) as nat,
            ),
        ),
{
}

} // verus!

