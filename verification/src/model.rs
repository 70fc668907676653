//! The specification decoder: what each byte sequence means.
//!
//! The format is defined once, here, as spec functions over `Seq<u8>`.
//! Each function returns either the decoded value together with the
//! number of bytes it spans, or the error that the input earns. The
//! executable decoders in [`crate::types`] and at the crate root are
//! proved to return exactly these results.

use vstd::prelude::*;

use crate::adapters::{inflate_of, utf8_of};
use crate::bytes::{as_i16, as_i32, as_i64, as_i8, le16, le32, le64};
use crate::types::{FbxError, Node, Property};

verus! {

broadcast use vstd::std_specs::vec::group_vec_axioms;

/// The mathematical value of one decoded property.
///
/// Scalar and array floats are carried as their IEEE-754 bit
/// patterns, exactly as they stand in the file.
#[verifier::ext_equal]
pub enum PropView {
    B(bool),
    I16(int),
    I32(int),
    I64(int),
    F32Bits(int),
    F64Bits(int),
    RawArray(Seq<u8>),
    Str(Seq<char>),
    BArray(Seq<bool>),
    I8Array(Seq<int>),
    I32Array(Seq<int>),
    I64Array(Seq<int>),
    F32BitsArray(Seq<int>),
    F64BitsArray(Seq<int>),
}

/// The mathematical value of one decoded node.
#[verifier::ext_equal]
pub struct NodeView {
    pub name: Seq<char>,
    pub properties: Seq<PropView>,
    pub subnodes: Seq<NodeView>,
}

pub open spec fn ints_of_i8(v: Seq<i8>) -> Seq<int> {
    Seq::new(v.len(), |i: int| v[i] as int)
}

pub open spec fn ints_of_i32(v: Seq<i32>) -> Seq<int> {
    Seq::new(v.len(), |i: int| v[i] as int)
}

pub open spec fn ints_of_i64(v: Seq<i64>) -> Seq<int> {
    Seq::new(v.len(), |i: int| v[i] as int)
}

pub open spec fn ints_of_u32(v: Seq<u32>) -> Seq<int> {
    Seq::new(v.len(), |i: int| v[i] as int)
}

pub open spec fn ints_of_u64(v: Seq<u64>) -> Seq<int> {
    Seq::new(v.len(), |i: int| v[i] as int)
}

/// The value of an executable property.
pub open spec fn prop_view(p: Property) -> PropView {
    match p {
        Property::B(b) => PropView::B(b),
        Property::I16(x) => PropView::I16(x as int),
        Property::I32(x) => PropView::I32(x as int),
        Property::I64(x) => PropView::I64(x as int),
        Property::F32Bits(x) => PropView::F32Bits(x as int),
        Property::F64Bits(x) => PropView::F64Bits(x as int),
        Property::RawArray(v) => PropView::RawArray(v@),
        Property::Str(s) => PropView::Str(s@),
        Property::BArray(v) => PropView::BArray(v@),
        Property::I8Array(v) => PropView::I8Array(ints_of_i8(v@)),
        Property::I32Array(v) => PropView::I32Array(ints_of_i32(v@)),
        Property::I64Array(v) => PropView::I64Array(ints_of_i64(v@)),
        Property::F32BitsArray(v) => PropView::F32BitsArray(ints_of_u32(v@)),
        Property::F64BitsArray(v) => PropView::F64BitsArray(ints_of_u64(v@)),
    }
}

/// The value of an executable node, children included.
pub open spec fn node_view(n: Node) -> NodeView
    decreases n, 1int,
{
    NodeView {
        name: n.name@,
        properties: Seq::new(n.properties@.len(), |i: int| prop_view(n.properties[i])),
        subnodes: node_seq_view(n.subnodes@),
    }
}

/// The values of a sequence of executable nodes, in order.
pub open spec fn node_seq_view(s: Seq<Node>) -> Seq<NodeView>
    decreases s, 0int,
{
    if s.len() == 0 {
        Seq::empty()
    } else {
        seq![node_view(s[0])] + node_seq_view(s.drop_first())
    }
}

pub open spec fn views_of_props(ps: Seq<Property>) -> Seq<PropView> {
    Seq::new(ps.len(), |i: int| prop_view(ps[i]))
}

pub open spec fn views_of_nodes(ns: Seq<Node>) -> Seq<NodeView> {
    Seq::new(ns.len(), |i: int| node_view(ns[i]))
}

/// The two spellings of a node sequence's value agree.
pub proof fn lemma_node_seq_view_is_views(s: Seq<Node>)
    ensures
        node_seq_view(s) == views_of_nodes(s),
    decreases s.len(),
{
    if s.len() == 0 {
        assert(node_seq_view(s) =~= views_of_nodes(s));
    } else {
        lemma_node_seq_view_is_views(s.drop_first());
        assert(node_seq_view(s) =~= views_of_nodes(s));
    }
}

/// Byte `i` of the fixed 23-byte signature
/// `"Kaydara FBX Binary  \x00\x1a\x00"`.
pub open spec fn spec_magic_byte(i: int) -> u8 {
    if i == 0 {
        0x4b
    } else if i == 1 {
        0x61
    } else if i == 2 {
        0x79
    } else if i == 3 {
        0x64
    } else if i == 4 {
        0x61
    } else if i == 5 {
        0x72
    } else if i == 6 {
        0x61
    } else if i == 7 {
        0x20
    } else if i == 8 {
        0x46
    } else if i == 9 {
        0x42
    } else if i == 10 {
        0x58
    } else if i == 11 {
        0x20
    } else if i == 12 {
        0x42
    } else if i == 13 {
        0x69
    } else if i == 14 {
        0x6e
    } else if i == 15 {
        0x61
    } else if i == 16 {
        0x72
    } else if i == 17 {
        0x79
    } else if i == 18 {
        0x20
    } else if i == 19 {
        0x20
    } else if i == 20 {
        0x00
    } else if i == 21 {
        0x1a
    } else {
        0x00
    }
}

/// The first 23 bytes of `s` are the signature.
pub open spec fn magic_ok(s: Seq<u8>) -> bool {
    forall|i: int| 0 <= i < 23 ==> s[i] == spec_magic_byte(i)
}

/// A length-prefixed block of raw bytes: a `u32` byte count, then that
/// many bytes verbatim.
pub open spec fn spec_raw_block(s: Seq<u8>, pos: int) -> Result<(Seq<u8>, nat), FbxError> {
    if pos + 4 > s.len() {
        Err(FbxError::Truncated)
    } else {
        let n = le32(s, pos);
        if pos + 4 + n > s.len() {
            Err(FbxError::Truncated)
        } else {
            Ok((s.subrange(pos + 4, pos + 4 + n), (4 + n) as nat))
        }
    }
}

/// The bytes that hold an array's elements, little-endian and densely
/// packed: the `u32` element count, `u32` encoding selector and `u32`
/// compressed byte length, then either the elements verbatim
/// (encoding 0) or one zlib stream that must inflate to exactly
/// `count * elem_size` bytes (encoding 1).
///
/// Returns the element bytes, the element count and the bytes spanned.
pub open spec fn spec_array_payload(s: Seq<u8>, pos: int, elem_size: int) -> Result<
    (Seq<u8>, int, nat),
    FbxError,
> {
    if pos + 12 > s.len() {
        Err(FbxError::Truncated)
    } else {
        let n = le32(s, pos);
        let enc = le32(s, pos + 4);
        let clen = le32(s, pos + 8);
        if enc == 0 {
            if pos + 12 + n * elem_size > s.len() {
                Err(FbxError::Truncated)
            } else {
                Ok((s.subrange(pos + 12, pos + 12 + n * elem_size), n, (12 + n * elem_size) as nat))
            }
        } else if enc == 1 {
            if pos + 12 + clen > s.len() {
                Err(FbxError::Truncated)
            } else {
                match inflate_of(s.subrange(pos + 12, pos + 12 + clen)) {
                    Some(d) => if d.len() != n * elem_size {
                        Err(FbxError::DecompressFailed)
                    } else {
                        Ok((d, n, (12 + clen) as nat))
                    },
                    None => Err(FbxError::DecompressFailed),
                }
            }
        } else {
            Err(FbxError::UnknownArrayEncoding)
        }
    }
}

/// A length-prefixed block whose bytes must be valid UTF-8.
pub open spec fn spec_decode_string(s: Seq<u8>, pos: int) -> Result<(Seq<char>, nat), FbxError> {
    match spec_raw_block(s, pos) {
        Ok((b, c)) => match utf8_of(b) {
            Some(t) => Ok((t, c)),
            None => Err(FbxError::StringNotUtf8),
        },
        Err(e) => Err(e),
    }
}

pub open spec fn bool_elems(d: Seq<u8>, n: int) -> Seq<bool> {
    Seq::new(n as nat, |i: int| d[i] == 1)
}

pub open spec fn i8_elems(d: Seq<u8>, n: int) -> Seq<int> {
    Seq::new(n as nat, |i: int| as_i8(d[i] as int))
}

pub open spec fn i32_elems(d: Seq<u8>, n: int) -> Seq<int> {
    Seq::new(n as nat, |i: int| as_i32(le32(d, 4 * i)))
}

pub open spec fn i64_elems(d: Seq<u8>, n: int) -> Seq<int> {
    Seq::new(n as nat, |i: int| as_i64(le64(d, 8 * i)))
}

pub open spec fn u32_elems(d: Seq<u8>, n: int) -> Seq<int> {
    Seq::new(n as nat, |i: int| le32(d, 4 * i))
}

pub open spec fn u64_elems(d: Seq<u8>, n: int) -> Seq<int> {
    Seq::new(n as nat, |i: int| le64(d, 8 * i))
}

/// One property record: a one-byte type tag, then the tag's payload.
pub open spec fn spec_decode_property(s: Seq<u8>, pos: int) -> Result<(PropView, nat), FbxError> {
    if pos + 1 > s.len() {
        Err(FbxError::Truncated)
    } else {
        let tag = s[pos];
        let p = pos + 1;
        if tag == 67 {  // 'C': one byte, 1 is true, anything else false
            if p + 1 > s.len() {
                Err(FbxError::Truncated)
            } else {
                Ok((PropView::B(s[p] == 1), 2))
            }
        } else if tag == 89 {  // 'Y': i16
            if p + 2 > s.len() {
                Err(FbxError::Truncated)
            } else {
                Ok((PropView::I16(as_i16(le16(s, p))), 3))
            }
        } else if tag == 73 {  // 'I': i32
            if p + 4 > s.len() {
                Err(FbxError::Truncated)
            } else {
                Ok((PropView::I32(as_i32(le32(s, p))), 5))
            }
        } else if tag == 76 {  // 'L': i64
            if p + 8 > s.len() {
                Err(FbxError::Truncated)
            } else {
                Ok((PropView::I64(as_i64(le64(s, p))), 9))
            }
        } else if tag == 70 {  // 'F': f32 bit pattern
            if p + 4 > s.len() {
                Err(FbxError::Truncated)
            } else {
                Ok((PropView::F32Bits(le32(s, p)), 5))
            }
        } else if tag == 68 {  // 'D': f64 bit pattern
            if p + 8 > s.len() {
                Err(FbxError::Truncated)
            } else {
                Ok((PropView::F64Bits(le64(s, p)), 9))
            }
        } else if tag == 82 {  // 'R': raw byte block
            match spec_raw_block(s, p) {
                Ok((b, c)) => Ok((PropView::RawArray(b), (1 + c) as nat)),
                Err(e) => Err(e),
            }
        } else if tag == 83 {  // 'S': UTF-8 string
            match spec_decode_string(s, p) {
                Ok((t, c)) => Ok((PropView::Str(t), (1 + c) as nat)),
                Err(e) => Err(e),
            }
        } else if tag == 98 {  // 'b': bool array
            match spec_array_payload(s, p, 1) {
                Ok((d, n, c)) => Ok((PropView::BArray(bool_elems(d, n)), (1 + c) as nat)),
                Err(e) => Err(e),
            }
        } else if tag == 99 {  // 'c': i8 array
            match spec_array_payload(s, p, 1) {
                Ok((d, n, c)) => Ok((PropView::I8Array(i8_elems(d, n)), (1 + c) as nat)),
                Err(e) => Err(e),
            }
        } else if tag == 105 {  // 'i': i32 array
            match spec_array_payload(s, p, 4) {
                Ok((d, n, c)) => Ok((PropView::I32Array(i32_elems(d, n)), (1 + c) as nat)),
                Err(e) => Err(e),
            }
        } else if tag == 108 {  // 'l': i64 array
            match spec_array_payload(s, p, 8) {
                Ok((d, n, c)) => Ok((PropView::I64Array(i64_elems(d, n)), (1 + c) as nat)),
                Err(e) => Err(e),
            }
        } else if tag == 102 {  // 'f': f32 array, as bit patterns
            match spec_array_payload(s, p, 4) {
                Ok((d, n, c)) => Ok((PropView::F32BitsArray(u32_elems(d, n)), (1 + c) as nat)),
                Err(e) => Err(e),
            }
        } else if tag == 100 {  // 'd': f64 array, as bit patterns
            match spec_array_payload(s, p, 8) {
                Ok((d, n, c)) => Ok((PropView::F64BitsArray(u64_elems(d, n)), (1 + c) as nat)),
                Err(e) => Err(e),
            }
        } else {
            Err(FbxError::UnknownPropertyTag)
        }
    }
}

/// `count` property records in a row.
pub open spec fn spec_decode_props(s: Seq<u8>, pos: int, count: nat) -> Result<
    (Seq<PropView>, nat),
    FbxError,
>
    decreases count,
{
    if count == 0 {
        Ok((Seq::empty(), 0))
    } else {
        match spec_decode_property(s, pos) {
            Err(e) => Err(e),
            Ok((p, c)) => match spec_decode_props(s, pos + c, (count - 1) as nat) {
                Err(e) => Err(e),
                Ok((ps, c2)) => Ok((seq![p] + ps, (c + c2) as nat)),
            },
        }
    }
}

/// One node record at `pos`: the 13-byte fixed header (end offset,
/// property count, property byte size, name length), then the name,
/// the properties, and the node's child list bounded by its end
/// offset. A header of four zero fields is the sentinel: no node.
///
/// The guards that cannot fire on a successful inner decode (see
/// [`lemma_props_span`], [`lemma_node_list_span`]) are spelled out so
/// that the recursion visibly moves forward through the bytes.
pub open spec fn spec_decode_node(s: Seq<u8>, pos: int) -> Result<(Option<NodeView>, nat), FbxError>
    decreases s.len() - pos, 0int,
{
    if pos + 13 > s.len() {
        Err(FbxError::Truncated)
    } else {
        let end_offset = le32(s, pos);
        let n_props = le32(s, pos + 4);
        let props_size = le32(s, pos + 8);
        let name_len = s[pos + 12] as int;
        if end_offset == 0 && n_props == 0 && props_size == 0 && name_len == 0 {
            Ok((None, 13))
        } else if pos + 13 + name_len > s.len() {
            Err(FbxError::Truncated)
        } else {
            match utf8_of(s.subrange(pos + 13, pos + 13 + name_len)) {
                None => Err(FbxError::NameNotUtf8),
                Some(name) => match spec_decode_props(s, pos + 13 + name_len, n_props as nat) {
                    Err(e) => Err(e),
                    Ok((props, pc)) => {
                        let p2 = pos + 13 + name_len + pc;
                        if p2 > s.len() {
                            Err(FbxError::Truncated)
                        } else {
                            match spec_decode_node_list(s, p2, end_offset) {
                                Err(e) => Err(e),
                                Ok((subs, lc)) => Ok(
                                    (
                                        Some(
                                            NodeView {
                                                name,
                                                properties: props,
                                                subnodes: subs,
                                            },
                                        ),
                                        (13 + name_len + pc + lc) as nat,
                                    ),
                                ),
                            }
                        }
                    },
                },
            }
        }
    }
}

/// A node list at `pos`, bounded by the absolute offset `end`: node
/// records in a row, stopping at a sentinel, or without one as soon as
/// the position after a node reaches `end`.
pub open spec fn spec_decode_node_list(s: Seq<u8>, pos: int, end: int) -> Result<
    (Seq<NodeView>, nat),
    FbxError,
>
    decreases s.len() - pos, 1int,
{
    if pos + 13 > s.len() {
        Err(FbxError::Truncated)
    } else {
        match spec_decode_node(s, pos) {
            Err(e) => Err(e),
            Ok((None, c)) => Ok((Seq::empty(), c)),
            Ok((Some(m), c)) => if c < 13 {
                Err(FbxError::Truncated)
            } else {
                let p1 = pos + c;
                if p1 >= end {
                    Ok((seq![m], c))
                } else if p1 > s.len() {
                    Err(FbxError::Truncated)
                } else {
                    match spec_decode_node_list(s, p1, end) {
                        Err(e) => Err(e),
                        Ok((rest, c2)) => Ok((seq![m] + rest, (c + c2) as nat)),
                    }
                }
            },
        }
    }
}

/// A whole file: the 23-byte signature, a `u32` version below 7500,
/// then the root node list, unbounded above.
pub open spec fn spec_decode_fbx(s: Seq<u8>) -> Result<Seq<NodeView>, FbxError> {
    if s.len() < 23 {
        Err(FbxError::Truncated)
    } else if !magic_ok(s) {
        Err(FbxError::BadMagic)
    } else if s.len() < 27 {
        Err(FbxError::Truncated)
    } else if le32(s, 23) >= 7500 {
        Err(FbxError::UnsupportedVersion)
    } else {
        match spec_decode_node_list(s, 27, 0xffff_ffff_ffff_ffff) {
            Ok((ms, _)) => Ok(ms),
            Err(e) => Err(e),
        }
    }
}

/// A successful property decode spans at least the tag byte and stays
/// inside the input.
pub proof fn lemma_prop_span(s: Seq<u8>, pos: int)
    requires
        spec_decode_property(s, pos) is Ok,
    ensures
        2 <= (spec_decode_property(s, pos)->Ok_0).1,
        pos + (spec_decode_property(s, pos)->Ok_0).1 <= s.len(),
{
}

/// A successful property-list decode stays inside the input (a list of
/// zero properties spans zero bytes, wherever it stands).
pub proof fn lemma_props_span(s: Seq<u8>, pos: int, count: nat)
    requires
        spec_decode_props(s, pos, count) is Ok,
    ensures
        count == 0 ==> (spec_decode_props(s, pos, count)->Ok_0).1 == 0,
        count > 0 ==> pos + (spec_decode_props(s, pos, count)->Ok_0).1 <= s.len(),
    decreases count,
{
    if count > 0 {
        let c = (spec_decode_property(s, pos)->Ok_0).1;
        lemma_prop_span(s, pos);
        lemma_props_span(s, pos + c, (count - 1) as nat);
    }
}

/// A successful node decode spans at least its 13-byte header and
/// stays inside the input.
pub proof fn lemma_node_span(s: Seq<u8>, pos: int)
    requires
        spec_decode_node(s, pos) is Ok,
    ensures
        13 <= (spec_decode_node(s, pos)->Ok_0).1,
        pos + (spec_decode_node(s, pos)->Ok_0).1 <= s.len(),
    decreases s.len() - pos, 0int,
{
    let name_len = s[pos + 12] as int;
    let n_props = le32(s, pos + 4);
    match spec_decode_node(s, pos) {
        Ok((Some(_), _)) => {
            let props_res = spec_decode_props(s, pos + 13 + name_len, n_props as nat);
            let pc = (props_res->Ok_0).1;
            lemma_props_span(s, pos + 13 + name_len, n_props as nat);
            let p2 = pos + 13 + name_len + pc;
            lemma_node_list_span(s, p2, le32(s, pos));
        },
        _ => {},
    }
}

/// A successful node-list decode spans at least one sentinel or node
/// header and stays inside the input.
pub proof fn lemma_node_list_span(s: Seq<u8>, pos: int, end: int)
    requires
        spec_decode_node_list(s, pos, end) is Ok,
    ensures
        13 <= (spec_decode_node_list(s, pos, end)->Ok_0).1,
        pos + (spec_decode_node_list(s, pos, end)->Ok_0).1 <= s.len(),
    decreases s.len() - pos, 1int,
{
    lemma_node_span(s, pos);
    match spec_decode_node(s, pos) {
        Ok((Some(_), c)) => {
            let p1 = pos + c;
            if p1 < end && p1 <= s.len() {
                lemma_node_list_span(s, p1, end);
            }
        },
        _ => {},
    }
}

} // verus!
