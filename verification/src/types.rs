//! The decoded tree and the executable decoders.
//!
//! Each decoder takes the whole byte buffer and an absolute position,
//! and returns the decoded value together with the position just past
//! it. Every result is proved equal to the specification decoder's on
//! the same bytes.

use vstd::prelude::*;

use crate::adapters::{inflate, string_from_utf8};
use crate::bytes::{
    copy_range, read_i8, read_le_i16, read_le_i32, read_le_i64, read_le_u32, read_le_u64, read_u8,
};
use crate::model::{
    bool_elems, i32_elems, i64_elems, i8_elems, ints_of_i32, ints_of_i64, ints_of_i8, ints_of_u32,
    ints_of_u64, lemma_node_seq_view_is_views, node_view, prop_view, spec_array_payload,
    spec_decode_node, spec_decode_node_list, spec_decode_property, spec_decode_props,
    spec_decode_string, spec_raw_block, u32_elems, u64_elems, views_of_nodes, views_of_props,
    NodeView, PropView,
};

verus! {

/// Why a decode failed.
///
/// `Truncated` is the input ending where a field was owed; `BadMagic`
/// and `UnsupportedVersion` fault the file header; the rest fault one
/// record's content.
#[derive(Clone, Copy, Debug, PartialEq, Eq, Structural)]
pub enum FbxError {
    /// The input ended inside a field.
    Truncated,
    /// The fixed 23-byte signature is not there.
    BadMagic,
    /// The header's version field is 7500 or above.
    UnsupportedVersion,
    /// A node's name bytes are not valid UTF-8.
    NameNotUtf8,
    /// A string property's bytes are not valid UTF-8.
    StringNotUtf8,
    /// A property record carries an unrecognized type tag.
    UnknownPropertyTag,
    /// An array record carries an encoding selector other than 0 or 1.
    UnknownArrayEncoding,
    /// A compressed array's payload did not inflate to exactly the
    /// declared element bytes.
    DecompressFailed,
}

/// One typed property of a node.
///
/// Floating-point payloads are kept as their little-endian IEEE-754
/// bit patterns, exactly as decoded; a consumer that wants `f32` or
/// `f64` values converts the bits outside this crate.
#[derive(Clone, Debug, PartialEq)]
pub enum Property {
    B(bool),
    I16(i16),
    I32(i32),
    I64(i64),
    F32Bits(u32),
    F64Bits(u64),
    RawArray(Vec<u8>),
    Str(String),
    BArray(Vec<bool>),
    I8Array(Vec<i8>),
    I32Array(Vec<i32>),
    I64Array(Vec<i64>),
    F32BitsArray(Vec<u32>),
    F64BitsArray(Vec<u64>),
}

/// One node of the decoded tree: a name, the properties in on-disk
/// order, and the child nodes in on-disk order.
#[derive(Debug, PartialEq)]
pub struct Node {
    /// Name of the node.
    pub name: String,
    /// The node's properties, in the order they stand in the file.
    pub properties: Vec<Property>,
    /// The node's children, in the order they stand in the file.
    pub subnodes: Vec<Node>,
}

impl View for Property {
    type V = PropView;

    open spec fn view(&self) -> PropView {
        prop_view(*self)
    }
}

impl View for Node {
    type V = NodeView;

    open spec fn view(&self) -> NodeView {
        node_view(*self)
    }
}

/// Decode a length-prefixed block of raw bytes.
pub fn decode_raw_array(bytes: &[u8], pos: usize) -> (r: Result<(Vec<u8>, usize), FbxError>)
    ensures
        match r {
            Ok((v, q)) => {
                &&& pos <= q <= bytes@.len()
                &&& spec_raw_block(bytes@, pos as int) == Ok::<_, FbxError>(
                    (v@, (q - pos) as nat),
                )
            },
            Err(e) => spec_raw_block(bytes@, pos as int) == Err::<(Seq<u8>, nat), FbxError>(e),
        },
{
    let n_total = bytes.len();
    if pos > n_total || n_total - pos < 4 {
        return Err(FbxError::Truncated);
    }
    let len = read_le_u32(bytes, pos) as usize;
    if len > n_total - (pos + 4) {
        return Err(FbxError::Truncated);
    }
    let v = copy_range(bytes, pos + 4, len);
    Ok((v, pos + 4 + len))
}

/// Decode a length-prefixed block that must be UTF-8 text.
pub fn decode_string(bytes: &[u8], pos: usize) -> (r: Result<(String, usize), FbxError>)
    ensures
        match r {
            Ok((t, q)) => {
                &&& pos <= q <= bytes@.len()
                &&& spec_decode_string(bytes@, pos as int) == Ok::<_, FbxError>(
                    (t@, (q - pos) as nat),
                )
            },
            Err(e) => spec_decode_string(bytes@, pos as int) == Err::<(Seq<char>, nat), FbxError>(
                e,
            ),
        },
{
    match decode_raw_array(bytes, pos) {
        Err(e) => Err(e),
        Ok((v, q)) => match string_from_utf8(v) {
            Some(t) => Ok((t, q)),
            None => Err(FbxError::StringNotUtf8),
        },
    }
}

/// Decode an array record's header and element bytes: on success the
/// returned buffer holds exactly `count * elem_size` bytes of
/// little-endian elements, read verbatim (encoding 0) or inflated from
/// one zlib stream (encoding 1).
fn decode_array_payload(bytes: &[u8], pos: usize, elem_size: usize) -> (r: Result<
    (Vec<u8>, u32, usize),
    FbxError,
>)
    requires
        1 <= elem_size <= 8,
    ensures
        match r {
            Ok((d, n, q)) => {
                &&& pos <= q <= bytes@.len()
                &&& d@.len() == n * elem_size
                &&& spec_array_payload(bytes@, pos as int, elem_size as int) == Ok::<_, FbxError>(
                    (d@, n as int, (q - pos) as nat),
                )
            },
            Err(e) => spec_array_payload(bytes@, pos as int, elem_size as int) == Err::<
                (Seq<u8>, int, nat),
                FbxError,
            >(e),
        },
{
    let n_total = bytes.len();
    if pos > n_total || n_total - pos < 12 {
        return Err(FbxError::Truncated);
    }
    let count = read_le_u32(bytes, pos);
    let enc = read_le_u32(bytes, pos + 4);
    let clen = read_le_u32(bytes, pos + 8);
    let body = pos + 12;
    if enc == 0 {
        proof {
            assert((count as int) * (elem_size as int) <= 0xffff_ffff * 8) by (nonlinear_arith)
                requires
                    count <= 0xffff_ffff,
                    1 <= elem_size <= 8,
            ;
        }
        let need = (count as u64) * (elem_size as u64);
        if need > (n_total - body) as u64 {
            return Err(FbxError::Truncated);
        }
        let d = copy_range(bytes, body, need as usize);
        Ok((d, count, body + need as usize))
    } else if enc == 1 {
        if (clen as u64) > (n_total - body) as u64 {
            return Err(FbxError::Truncated);
        }
        let comp = copy_range(bytes, body, clen as usize);
        match inflate(comp.as_slice()) {
            None => Err(FbxError::DecompressFailed),
            Some(d) => {
                proof {
                    assert((count as int) * (elem_size as int) <= 0xffff_ffff * 8)
                        by (nonlinear_arith)
                        requires
                            count <= 0xffff_ffff,
                            1 <= elem_size <= 8,
                    ;
                }
                let need = (count as u64) * (elem_size as u64);
                if d.len() as u64 != need {
                    return Err(FbxError::DecompressFailed);
                }
                Ok((d, count, body + clen as usize))
            },
        }
    } else {
        Err(FbxError::UnknownArrayEncoding)
    }
}

/// Decode one property record: its one-byte type tag, then the tag's
/// payload, scalar or array.
pub fn decode_property(bytes: &[u8], pos: usize) -> (r: Result<(Property, usize), FbxError>)
    ensures
        match r {
            Ok((p, q)) => {
                &&& pos <= q <= bytes@.len()
                &&& spec_decode_property(bytes@, pos as int) == Ok::<_, FbxError>(
                    (p@, (q - pos) as nat),
                )
            },
            Err(e) => spec_decode_property(bytes@, pos as int) == Err::<(PropView, nat), FbxError>(
                e,
            ),
        },
{
    let n_total = bytes.len();
    if pos >= n_total {
        return Err(FbxError::Truncated);
    }
    let tag = read_u8(bytes, pos);
    let p = pos + 1;
    if tag == 67 {  // 'C': one byte, 1 is true, anything else false
        if n_total - p < 1 {
            return Err(FbxError::Truncated);
        }
        let b = read_u8(bytes, p);
        Ok((Property::B(b == 1), p + 1))
    } else if tag == 89 {  // 'Y': i16
        if n_total - p < 2 {
            return Err(FbxError::Truncated);
        }
        Ok((Property::I16(read_le_i16(bytes, p)), p + 2))
    } else if tag == 73 {  // 'I': i32
        if n_total - p < 4 {
            return Err(FbxError::Truncated);
        }
        Ok((Property::I32(read_le_i32(bytes, p)), p + 4))
    } else if tag == 76 {  // 'L': i64
        if n_total - p < 8 {
            return Err(FbxError::Truncated);
        }
        Ok((Property::I64(read_le_i64(bytes, p)), p + 8))
    } else if tag == 70 {  // 'F': f32 bit pattern
        if n_total - p < 4 {
            return Err(FbxError::Truncated);
        }
        Ok((Property::F32Bits(read_le_u32(bytes, p)), p + 4))
    } else if tag == 68 {  // 'D': f64 bit pattern
        if n_total - p < 8 {
            return Err(FbxError::Truncated);
        }
        Ok((Property::F64Bits(read_le_u64(bytes, p)), p + 8))
    } else if tag == 82 {  // 'R': raw byte block
        match decode_raw_array(bytes, p) {
            Ok((v, q)) => Ok((Property::RawArray(v), q)),
            Err(e) => Err(e),
        }
    } else if tag == 83 {  // 'S': UTF-8 string
        match decode_string(bytes, p) {
            Ok((t, q)) => Ok((Property::Str(t), q)),
            Err(e) => Err(e),
        }
    } else if tag == 98 {  // 'b': bool array
        match decode_array_payload(bytes, p, 1) {
            Err(e) => Err(e),
            Ok((d, cnt, q)) => {
                let v = bools_from_bytes(d.as_slice(), cnt as usize);
                Ok((Property::BArray(v), q))
            },
        }
    } else if tag == 99 {  // 'c': i8 array
        match decode_array_payload(bytes, p, 1) {
            Err(e) => Err(e),
            Ok((d, cnt, q)) => {
                let v = i8s_from_bytes(d.as_slice(), cnt as usize);
                Ok((Property::I8Array(v), q))
            },
        }
    } else if tag == 105 {  // 'i': i32 array
        match decode_array_payload(bytes, p, 4) {
            Err(e) => Err(e),
            Ok((d, cnt, q)) => {
                let v = i32s_from_bytes(d.as_slice(), cnt as usize);
                Ok((Property::I32Array(v), q))
            },
        }
    } else if tag == 108 {  // 'l': i64 array
        match decode_array_payload(bytes, p, 8) {
            Err(e) => Err(e),
            Ok((d, cnt, q)) => {
                let v = i64s_from_bytes(d.as_slice(), cnt as usize);
                Ok((Property::I64Array(v), q))
            },
        }
    } else if tag == 102 {  // 'f': f32 array, as bit patterns
        match decode_array_payload(bytes, p, 4) {
            Err(e) => Err(e),
            Ok((d, cnt, q)) => {
                let v = u32s_from_bytes(d.as_slice(), cnt as usize);
                Ok((Property::F32BitsArray(v), q))
            },
        }
    } else if tag == 100 {  // 'd': f64 array, as bit patterns
        match decode_array_payload(bytes, p, 8) {
            Err(e) => Err(e),
            Ok((d, cnt, q)) => {
                let v = u64s_from_bytes(d.as_slice(), cnt as usize);
                Ok((Property::F64BitsArray(v), q))
            },
        }
    } else {
        Err(FbxError::UnknownPropertyTag)
    }
}

/// Decode one node record at `pos`: its 13-byte fixed header, name,
/// properties, and the child list bounded by the node's declared end
/// offset. An all-zero header is the sentinel and yields no node.
#[verifier::loop_isolation(false)]
pub fn decode_node(bytes: &[u8], pos: usize) -> (r: Result<(Option<Node>, usize), FbxError>)
    ensures
        match r {
            Ok((on, q)) => {
                &&& pos <= q <= bytes@.len()
                &&& match on {
                    None => spec_decode_node(bytes@, pos as int) == Ok::<_, FbxError>(
                        (None::<NodeView>, (q - pos) as nat),
                    ),
                    Some(nd) => spec_decode_node(bytes@, pos as int) == Ok::<_, FbxError>(
                        (Some(nd@), (q - pos) as nat),
                    ),
                }
            },
            Err(e) => spec_decode_node(bytes@, pos as int) == Err::<
                (Option<NodeView>, nat),
                FbxError,
            >(e),
        },
    decreases bytes@.len() - pos, 0int,
{
    let n_total = bytes.len();
    if pos > n_total || n_total - pos < 13 {
        return Err(FbxError::Truncated);
    }
    let end_offset = read_le_u32(bytes, pos);
    let n_props = read_le_u32(bytes, pos + 4);
    let props_size = read_le_u32(bytes, pos + 8);
    let name_len = read_u8(bytes, pos + 12) as usize;
    if end_offset == 0 && n_props == 0 && props_size == 0 && name_len == 0 {
        return Ok((None, pos + 13));
    }
    if name_len > n_total - (pos + 13) {
        return Err(FbxError::Truncated);
    }
    let name_start = pos + 13;
    let name_bytes = copy_range(bytes, name_start, name_len);
    let name = match string_from_utf8(name_bytes) {
        Some(t) => t,
        None => {
            return Err(FbxError::NameNotUtf8);
        },
    };
    let ghost pos0: int = pos + 13 + name_len;
    let mut props: Vec<Property> = Vec::new();
    let mut cur: usize = name_start + name_len;
    let mut j: u32 = 0;
    while j < n_props
        invariant
            n_total == bytes@.len(),
            pos0 == pos + 13 + name_len,
            pos + 13 + name_len <= cur <= n_total,
            j <= n_props,
            props@.len() == j,
            spec_decode_props(bytes@, pos0, n_props as nat) == (match spec_decode_props(
                bytes@,
                cur as int,
                (n_props - j) as nat,
            ) {
                Ok((ps, c)) => Ok::<_, FbxError>(
                    (views_of_props(props@) + ps, ((cur - pos0) + c) as nat),
                ),
                Err(e) => Err::<(Seq<PropView>, nat), FbxError>(e),
            }),
        decreases n_props - j,
    {
        match decode_property(bytes, cur) {
            Err(e) => {
                return Err(e);
            },
            Ok((pp, q)) => {
                let ghost old_props = props@;
                let ghost k = (n_props - j) as nat;
                let ghost ppv = pp@;
                props.push(pp);
                j = j + 1;
                cur = q;
                proof {
                    match spec_decode_props(bytes@, q as int, (k - 1) as nat) {
                        Ok((ps, c)) => {
                            assert(views_of_props(props@) =~= views_of_props(old_props)
                                + seq![ppv]);
                            assert(views_of_props(old_props) + (seq![ppv] + ps)
                                =~= views_of_props(props@) + ps);
                        },
                        Err(_) => {},
                    }
                }
            },
        }
    }
    proof {
        assert(views_of_props(props@) + Seq::<PropView>::empty() =~= views_of_props(props@));
    }
    match decode_node_list(bytes, cur, end_offset as u64) {
        Err(e) => Err(e),
        Ok((subs, q2)) => {
            let ghost props_s = props@;
            let ghost subs_s = subs@;
            let ghost name_s = name@;
            let nd = Node { name, properties: props, subnodes: subs };
            proof {
                lemma_node_seq_view_is_views(subs_s);
                assert(node_view(nd).properties =~= views_of_props(props_s));
                assert(node_view(nd) =~= NodeView {
                    name: name_s,
                    properties: views_of_props(props_s),
                    subnodes: views_of_nodes(subs_s),
                });
            }
            Ok((Some(nd), q2))
        },
    }
}

/// Decode node records starting at `pos` until a sentinel ends the
/// list, or until the position just past a node reaches the absolute
/// bound `end`.
#[verifier::loop_isolation(false)]
pub fn decode_node_list(bytes: &[u8], pos: usize, end: u64) -> (r: Result<
    (Vec<Node>, usize),
    FbxError,
>)
    ensures
        match r {
            Ok((ns, q)) => {
                &&& pos <= q <= bytes@.len()
                &&& spec_decode_node_list(bytes@, pos as int, end as int) == Ok::<_, FbxError>(
                    (views_of_nodes(ns@), (q - pos) as nat),
                )
            },
            Err(e) => spec_decode_node_list(bytes@, pos as int, end as int) == Err::<
                (Seq<NodeView>, nat),
                FbxError,
            >(e),
        },
    decreases bytes@.len() - pos, 1int,
{
    let n_total = bytes.len();
    let mut nodes: Vec<Node> = Vec::new();
    let mut cur: usize = pos;
    proof {
        match spec_decode_node_list(bytes@, pos as int, end as int) {
            Ok((ms, _)) => {
                assert(views_of_nodes(nodes@) + ms =~= ms);
            },
            Err(_) => {},
        }
    }
    loop
        invariant
            n_total == bytes@.len(),
            pos <= cur,
            cur <= n_total || cur == pos,
            spec_decode_node_list(bytes@, pos as int, end as int) == (match spec_decode_node_list(
                bytes@,
                cur as int,
                end as int,
            ) {
                Ok((ms, c)) => Ok::<_, FbxError>(
                    (views_of_nodes(nodes@) + ms, ((cur - pos) + c) as nat),
                ),
                Err(e) => Err::<(Seq<NodeView>, nat), FbxError>(e),
            }),
        decreases n_total - cur,
    {
        if cur > n_total || n_total - cur < 13 {
            return Err(FbxError::Truncated);
        }
        match decode_node(bytes, cur) {
            Err(e) => {
                return Err(e);
            },
            Ok((None, q)) => {
                proof {
                    assert(views_of_nodes(nodes@) + Seq::<NodeView>::empty() =~= views_of_nodes(
                        nodes@,
                    ));
                }
                return Ok((nodes, q));
            },
            Ok((Some(nd), q)) => {
                proof {
                    crate::model::lemma_node_span(bytes@, cur as int);
                }
                let ghost old_nodes = nodes@;
                let ghost ndv = nd@;
                nodes.push(nd);
                proof {
                    assert(views_of_nodes(nodes@) =~= views_of_nodes(old_nodes) + seq![ndv]);
                }
                if q as u64 >= end {
                    return Ok((nodes, q));
                }
                proof {
                    match spec_decode_node_list(bytes@, q as int, end as int) {
                        Ok((rest, _)) => {
                            assert(views_of_nodes(old_nodes) + (seq![ndv] + rest)
                                =~= views_of_nodes(nodes@) + rest);
                        },
                        Err(_) => {},
                    }
                }
                cur = q;
            },
        }
    }
}

fn bools_from_bytes(d: &[u8], n: usize) -> (r: Vec<bool>)
    requires
        n == d@.len(),
    ensures
        r@ == bool_elems(d@, n as int),
{
    let d_len = d.len();
    let mut out: Vec<bool> = Vec::new();
    let mut i: usize = 0;
    while i < n
        invariant
            n == d@.len() == d_len,
            i <= n,
            out@.len() == i,
            forall|j: int| 0 <= j < i ==> out@[j] == (d@[j] == 1),
        decreases n - i,
    {
        out.push(read_u8(d, i) == 1);
        i = i + 1;
    }
    proof {
        assert(out@ =~= bool_elems(d@, n as int));
    }
    out
}

fn i8s_from_bytes(d: &[u8], n: usize) -> (r: Vec<i8>)
    requires
        n == d@.len(),
    ensures
        r@.len() == n,
        ints_of_i8(r@) == i8_elems(d@, n as int),
{
    let d_len = d.len();
    let mut out: Vec<i8> = Vec::new();
    let mut i: usize = 0;
    while i < n
        invariant
            n == d@.len() == d_len,
            i <= n,
            out@.len() == i,
            forall|j: int| 0 <= j < i ==> out@[j] as int == crate::bytes::as_i8(d@[j] as int),
        decreases n - i,
    {
        out.push(read_i8(d, i));
        i = i + 1;
    }
    proof {
        assert(ints_of_i8(out@) =~= i8_elems(d@, n as int));
    }
    out
}

fn i32s_from_bytes(d: &[u8], n: usize) -> (r: Vec<i32>)
    requires
        d@.len() == n * 4,
    ensures
        r@.len() == n,
        ints_of_i32(r@) == i32_elems(d@, n as int),
{
    let d_len = d.len();
    let mut out: Vec<i32> = Vec::new();
    let mut i: usize = 0;
    while i < n
        invariant
            d@.len() == n * 4 && d@.len() == d_len,
            i <= n,
            out@.len() == i,
            forall|j: int|
                0 <= j < i ==> out@[j] as int == crate::bytes::as_i32(
                    crate::bytes::le32(d@, 4 * j),
                ),
        decreases n - i,
    {
        out.push(read_le_i32(d, 4 * i));
        i = i + 1;
    }
    proof {
        assert(ints_of_i32(out@) =~= i32_elems(d@, n as int));
    }
    out
}

fn i64s_from_bytes(d: &[u8], n: usize) -> (r: Vec<i64>)
    requires
        d@.len() == n * 8,
    ensures
        r@.len() == n,
        ints_of_i64(r@) == i64_elems(d@, n as int),
{
    let d_len = d.len();
    let mut out: Vec<i64> = Vec::new();
    let mut i: usize = 0;
    while i < n
        invariant
            d@.len() == n * 8 && d@.len() == d_len,
            i <= n,
            out@.len() == i,
            forall|j: int|
                0 <= j < i ==> out@[j] as int == crate::bytes::as_i64(
                    crate::bytes::le64(d@, 8 * j),
                ),
        decreases n - i,
    {
        out.push(read_le_i64(d, 8 * i));
        i = i + 1;
    }
    proof {
        assert(ints_of_i64(out@) =~= i64_elems(d@, n as int));
    }
    out
}

fn u32s_from_bytes(d: &[u8], n: usize) -> (r: Vec<u32>)
    requires
        d@.len() == n * 4,
    ensures
        r@.len() == n,
        ints_of_u32(r@) == u32_elems(d@, n as int),
{
    let d_len = d.len();
    let mut out: Vec<u32> = Vec::new();
    let mut i: usize = 0;
    while i < n
        invariant
            d@.len() == n * 4 && d@.len() == d_len,
            i <= n,
            out@.len() == i,
            forall|j: int| 0 <= j < i ==> out@[j] as int == crate::bytes::le32(d@, 4 * j),
        decreases n - i,
    {
        out.push(read_le_u32(d, 4 * i));
        i = i + 1;
    }
    proof {
        assert(ints_of_u32(out@) =~= u32_elems(d@, n as int));
    }
    out
}

fn u64s_from_bytes(d: &[u8], n: usize) -> (r: Vec<u64>)
    requires
        d@.len() == n * 8,
    ensures
        r@.len() == n,
        ints_of_u64(r@) == u64_elems(d@, n as int),
{
    let d_len = d.len();
    let mut out: Vec<u64> = Vec::new();
    let mut i: usize = 0;
    while i < n
        invariant
            d@.len() == n * 8 && d@.len() == d_len,
            i <= n,
            out@.len() == i,
            forall|j: int| 0 <= j < i ==> out@[j] as int == crate::bytes::le64(d@, 8 * j),
        decreases n - i,
    {
        out.push(read_le_u64(d, 8 * i));
        i = i + 1;
    }
    proof {
        assert(ints_of_u64(out@) =~= u64_elems(d@, n as int));
    }
    out
}

} // verus!
