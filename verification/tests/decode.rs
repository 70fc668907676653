use fbx::decode_fbx;
use fbx::types::{decode_node, decode_node_list, FbxError, Node, Property};

const MAGIC: &[u8] = b"Kaydara FBX Binary  \x00\x1a\x00";

fn header(version: u32) -> Vec<u8> {
    let mut v = MAGIC.to_vec();
    v.extend_from_slice(&version.to_le_bytes());
    v
}

fn push_sentinel(v: &mut Vec<u8>) {
    v.extend_from_slice(&[0u8; 13]);
}

fn push_node_header(v: &mut Vec<u8>, end_offset: u32, n_props: u32, props_size: u32, name: &[u8]) {
    v.extend_from_slice(&end_offset.to_le_bytes());
    v.extend_from_slice(&n_props.to_le_bytes());
    v.extend_from_slice(&props_size.to_le_bytes());
    v.push(name.len() as u8);
    v.extend_from_slice(name);
}

#[test]
fn empty_forest() {
    // A sentinel right after the header: a file of zero nodes.
    let mut v = header(7400);
    push_sentinel(&mut v);
    let forest = decode_fbx(&v).unwrap();
    assert_eq!(forest.len(), 0);
}

#[test]
fn single_leaf_node() {
    let mut v = header(7400);
    // one node: 13-byte header + 1-byte name + its own child sentinel
    push_node_header(&mut v, 54, 0, 0, b"A");
    push_sentinel(&mut v); // ends the node's child list at its end offset 54
    push_sentinel(&mut v); // ends the root list
    let forest = decode_fbx(&v).unwrap();
    assert_eq!(forest.len(), 1);
    assert_eq!(forest[0].name, "A");
    assert_eq!(forest[0].properties.len(), 0);
    assert_eq!(forest[0].subnodes.len(), 0);
}

#[test]
fn nested_nodes() {
    let mut v = header(7400);
    push_node_header(&mut v, 81, 0, 0, b"P"); // parent: 27..81
    push_node_header(&mut v, 68, 0, 0, b"C"); // child: 41..68
    push_sentinel(&mut v); // ends the child's own list at 68
    push_sentinel(&mut v); // ends the parent's child list at 81
    push_sentinel(&mut v); // ends the root list
    let forest = decode_fbx(&v).unwrap();
    assert_eq!(forest.len(), 1);
    assert_eq!(forest[0].name, "P");
    assert_eq!(forest[0].subnodes.len(), 1);
    assert_eq!(forest[0].subnodes[0].name, "C");
    assert_eq!(forest[0].subnodes[0].subnodes.len(), 0);
}

#[test]
fn two_root_nodes() {
    let mut v = header(7400);
    push_node_header(&mut v, 54, 0, 0, b"A");
    push_sentinel(&mut v);
    push_node_header(&mut v, 81, 0, 0, b"B");
    push_sentinel(&mut v);
    push_sentinel(&mut v);
    let forest = decode_fbx(&v).unwrap();
    assert_eq!(forest.len(), 2);
    assert_eq!(forest[0].name, "A");
    assert_eq!(forest[1].name, "B");
}

#[test]
fn node_with_properties() {
    let mut v = header(7400);
    let start = v.len() as u32; // 27
    // properties: I32(7) and a string "hi": 5 + 9 = 14 bytes
    // node: 13 header + 1 name + 14 props + 13 child sentinel = 41 bytes
    push_node_header(&mut v, start + 41, 2, 99, b"N"); // props_size is informational only
    v.push(b'I');
    v.extend_from_slice(&7i32.to_le_bytes());
    v.push(b'S');
    v.extend_from_slice(&2u32.to_le_bytes());
    v.extend_from_slice(b"hi");
    push_sentinel(&mut v); // ends the node's child list
    push_sentinel(&mut v); // ends the root list
    let forest = decode_fbx(&v).unwrap();
    assert_eq!(forest.len(), 1);
    assert_eq!(forest[0].properties.len(), 2);
    assert_eq!(forest[0].properties[0], Property::I32(7));
    assert_eq!(forest[0].properties[1], Property::Str(String::from("hi")));
}

#[test]
fn wrong_magic_fails() {
    let mut v = header(7400);
    v[0] = b'X';
    push_sentinel(&mut v);
    assert_eq!(decode_fbx(&v), Err(FbxError::BadMagic));
}

#[test]
fn version_7500_rejected() {
    let mut v = header(7500);
    push_sentinel(&mut v);
    assert_eq!(decode_fbx(&v), Err(FbxError::UnsupportedVersion));
}

#[test]
fn version_7499_accepted() {
    let mut v = header(7499);
    push_sentinel(&mut v);
    assert!(decode_fbx(&v).is_ok());
}

#[test]
fn short_magic_fails() {
    let v = MAGIC[..10].to_vec();
    assert_eq!(decode_fbx(&v), Err(FbxError::Truncated));
}

#[test]
fn missing_version_fails() {
    let v = MAGIC.to_vec();
    assert_eq!(decode_fbx(&v), Err(FbxError::Truncated));
}

#[test]
fn truncated_mid_node_header_fails() {
    // the root list starts but the record's 13-byte header is cut short
    let mut v = header(7400);
    v.extend_from_slice(&[0u8; 5]);
    assert_eq!(decode_fbx(&v), Err(FbxError::Truncated));
}

#[test]
fn truncated_name_fails() {
    let mut v = header(7400);
    push_node_header(&mut v, 99, 0, 0, b"");
    // name length says 4 bytes follow, but none do
    let pos = v.len() - 1;
    v[pos] = 4;
    assert_eq!(decode_fbx(&v), Err(FbxError::Truncated));
}

#[test]
fn non_utf8_name_fails() {
    let mut v = header(7400);
    push_node_header(&mut v, 54, 0, 0, &[0xff]);
    push_sentinel(&mut v);
    push_sentinel(&mut v);
    assert_eq!(decode_fbx(&v), Err(FbxError::NameNotUtf8));
}

#[test]
fn sentinel_alone_ends_list() {
    // a node list that starts at a sentinel holds no nodes and spans
    // exactly the 13 zero bytes
    let v = vec![0u8; 13];
    let (nodes, pos) = decode_node_list(&v, 0, u64::MAX).unwrap();
    assert_eq!(nodes.len(), 0);
    assert_eq!(pos, 13);
}

#[test]
fn sentinel_is_no_node() {
    let v = vec![0u8; 13];
    let (node, pos) = decode_node(&v, 0).unwrap();
    assert!(node.is_none());
    assert_eq!(pos, 13);
}

#[test]
fn list_stops_at_end_offset_without_sentinel() {
    // the parent's child list ends exactly at the parent's bound, with
    // no sentinel of its own after the child
    let mut v = vec![0u8; 4]; // leading padding so positions differ from 0
    push_node_header(&mut v, 45, 0, 0, b"P"); // parent: 4..45
    push_node_header(&mut v, 45, 0, 0, b"C"); // child: 18..45
    push_sentinel(&mut v); // ends the child's own list at 45
    let (node, pos) = decode_node(&v, 4).unwrap();
    let node = node.unwrap();
    assert_eq!(pos, 45);
    assert_eq!(node.name, "P");
    assert_eq!(node.subnodes.len(), 1);
    assert_eq!(node.subnodes[0].name, "C");
}

#[test]
fn decode_is_deterministic() {
    let mut v = header(7400);
    let start = v.len() as u32;
    push_node_header(&mut v, start + 41, 2, 14, b"N");
    v.push(b'I');
    v.extend_from_slice(&(-5i32).to_le_bytes());
    v.push(b'S');
    v.extend_from_slice(&2u32.to_le_bytes());
    v.extend_from_slice(b"ok");
    push_sentinel(&mut v);
    push_sentinel(&mut v);
    let a: Vec<Node> = decode_fbx(&v).unwrap();
    let b: Vec<Node> = decode_fbx(&v).unwrap();
    assert_eq!(a, b);
}

fn total_nodes(forest: &[Node]) -> usize {
    forest.iter().map(|n| 1 + total_nodes(&n.subnodes)).sum()
}

#[test]
fn node_count_matches_records() {
    // three non-sentinel records in the file: three nodes in the forest
    let mut v = header(7400);
    push_node_header(&mut v, 81, 0, 0, b"P"); // parent: 27..81
    push_node_header(&mut v, 68, 0, 0, b"C"); // child: 41..68
    push_sentinel(&mut v); // ends the child's own list
    push_sentinel(&mut v); // ends the parent's child list
    push_node_header(&mut v, 108, 0, 0, b"Q"); // second root: 81..108
    push_sentinel(&mut v); // ends its child list
    push_sentinel(&mut v); // ends the root list
    let forest = decode_fbx(&v).unwrap();
    assert_eq!(total_nodes(&forest), 3);
}

#[test]
fn empty_input_fails() {
    let v: Vec<u8> = Vec::new();
    assert_eq!(decode_fbx(&v), Err(FbxError::Truncated));
}
