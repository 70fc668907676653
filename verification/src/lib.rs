//! A verified decoder for the binary FBX 3D-scene interchange format.
//!
//! The decoder turns a byte buffer into a forest of [`types::Node`]
//! values: each node has a name, an ordered list of typed
//! [`types::Property`] values, and an ordered list of child nodes.
//! The grammar is recursive descent, bounded by per-node end offsets
//! and terminated by all-zero sentinel records.
//!
//! Every executable decoder is proved to agree with the specification
//! decoder in [`model`], which defines the format once, over byte
//! sequences.

use vstd::prelude::*;

pub mod adapters;
pub mod bytes;
pub mod laws;
pub mod model;
pub mod types;

verus! {

use crate::bytes::{read_le_u32, read_u8};
use crate::model::{spec_decode_fbx, spec_magic_byte, views_of_nodes};
use crate::types::{decode_node_list, FbxError, Node};

/// One byte of the fixed 23-byte signature that every binary FBX file
/// starts with.
fn magic_byte(i: usize) -> (r: u8)
    requires
        i < 23,
    ensures
        r == spec_magic_byte(i as int),
{
    match i {
        0 => 0x4b,
        1 => 0x61,
        2 => 0x79,
        3 => 0x64,
        4 => 0x61,
        5 => 0x72,
        6 => 0x61,
        7 => 0x20,
        8 => 0x46,
        9 => 0x42,
        10 => 0x58,
        11 => 0x20,
        12 => 0x42,
        13 => 0x69,
        14 => 0x6e,
        15 => 0x61,
        16 => 0x72,
        17 => 0x79,
        18 => 0x20,
        19 => 0x20,
        20 => 0x00,
        21 => 0x1a,
        _ => 0x00,
    }
}

/// Decode a whole binary FBX file into its forest of root nodes.
///
/// The result is exactly what the specification decoder gives on the
/// same bytes: the fixed signature and a version below 7500 are
/// required, and the root node list then runs to its sentinel.
/// Because the result is a function of the bytes alone, decoding the
/// same input twice yields structurally equal forests.
pub fn decode_fbx(bytes: &[u8]) -> (r: Result<Vec<Node>, FbxError>)
    ensures
        match r {
            Ok(nodes) => spec_decode_fbx(bytes@) == Ok::<Seq<crate::model::NodeView>, FbxError>(
                views_of_nodes(nodes@),
            ),
            Err(e) => spec_decode_fbx(bytes@) == Err::<Seq<crate::model::NodeView>, FbxError>(e),
        },
{
    if bytes.len() < 23 {
        return Err(FbxError::Truncated);
    }
    let mut i: usize = 0;
    while i < 23
        invariant
            bytes@.len() >= 23,
            i <= 23,
            forall|j: int| 0 <= j < i ==> bytes@[j] == spec_magic_byte(j),
        decreases 23 - i,
    {
        if read_u8(bytes, i) != magic_byte(i) {
            return Err(FbxError::BadMagic);
        }
        i = i + 1;
    }
    if bytes.len() < 27 {
        return Err(FbxError::Truncated);
    }
    let version = read_le_u32(bytes, 23);
    if version >= 7500 {
        return Err(FbxError::UnsupportedVersion);
    }
    match decode_node_list(bytes, 27, u64::MAX) {
        Ok((nodes, _)) => Ok(nodes),
        Err(e) => Err(e),
    }
}

} // verus!
