use std::io::Write;

use fbx::types::{decode_property, decode_raw_array, decode_string, FbxError, Property};

fn array_header(tag: u8, count: u32, encoding: u32, compressed_len: u32) -> Vec<u8> {
    let mut v = vec![tag];
    v.extend_from_slice(&count.to_le_bytes());
    v.extend_from_slice(&encoding.to_le_bytes());
    v.extend_from_slice(&compressed_len.to_le_bytes());
    v
}

fn zlib_compress(data: &[u8]) -> Vec<u8> {
    let mut enc = flate2::write::ZlibEncoder::new(Vec::new(), flate2::Compression::default());
    enc.write_all(data).unwrap();
    enc.finish().unwrap()
}

#[test]
fn bool_true() {
    let v = vec![b'C', 1u8];
    assert_eq!(decode_property(&v, 0), Ok((Property::B(true), 2)));
}

#[test]
fn bool_false() {
    let v = vec![b'C', 0u8];
    assert_eq!(decode_property(&v, 0), Ok((Property::B(false), 2)));
}

#[test]
fn bool_other_value_is_false() {
    // only the value 1 means true
    let v = vec![b'C', 2u8];
    assert_eq!(decode_property(&v, 0), Ok((Property::B(false), 2)));
}

#[test]
fn i16_scalar() {
    let mut v = vec![b'Y'];
    v.extend_from_slice(&(-2i16).to_le_bytes());
    assert_eq!(decode_property(&v, 0), Ok((Property::I16(-2), 3)));
}

#[test]
fn i32_scalar() {
    let mut v = vec![b'I'];
    v.extend_from_slice(&(-100_000i32).to_le_bytes());
    assert_eq!(decode_property(&v, 0), Ok((Property::I32(-100_000), 5)));
}

#[test]
fn i64_scalar() {
    let mut v = vec![b'L'];
    v.extend_from_slice(&(-5_000_000_000i64).to_le_bytes());
    assert_eq!(decode_property(&v, 0), Ok((Property::I64(-5_000_000_000), 9)));
}

#[test]
fn f32_scalar_bits() {
    let mut v = vec![b'F'];
    v.extend_from_slice(&[0x00, 0x00, 0x80, 0x3f]); // 1.0f32
    let (p, q) = decode_property(&v, 0).unwrap();
    assert_eq!(q, 5);
    assert_eq!(p, Property::F32Bits(0x3f80_0000));
    if let Property::F32Bits(bits) = p {
        assert_eq!(f32::from_bits(bits), 1.0f32);
    }
}

#[test]
fn f64_scalar_bits() {
    let mut v = vec![b'D'];
    v.extend_from_slice(&(-2.5f64).to_le_bytes());
    let (p, q) = decode_property(&v, 0).unwrap();
    assert_eq!(q, 9);
    assert_eq!(p, Property::F64Bits((-2.5f64).to_bits()));
}

#[test]
fn raw_property() {
    let mut v = vec![b'R'];
    v.extend_from_slice(&3u32.to_le_bytes());
    v.extend_from_slice(&[9, 8, 7]);
    assert_eq!(decode_property(&v, 0), Ok((Property::RawArray(vec![9, 8, 7]), 8)));
}

#[test]
fn string_property() {
    let mut v = vec![b'S'];
    let text = "h\u{e9}"; // two characters, three UTF-8 bytes
    v.extend_from_slice(&(text.len() as u32).to_le_bytes());
    v.extend_from_slice(text.as_bytes());
    assert_eq!(decode_property(&v, 0), Ok((Property::Str(String::from(text)), 8)));
}

#[test]
fn string_not_utf8() {
    let mut v = vec![b'S'];
    v.extend_from_slice(&1u32.to_le_bytes());
    v.push(0xff);
    assert_eq!(decode_property(&v, 0), Err(FbxError::StringNotUtf8));
}

#[test]
fn unknown_tag() {
    let v = vec![b'Z', 0, 0, 0, 0];
    assert_eq!(decode_property(&v, 0), Err(FbxError::UnknownPropertyTag));
}

#[test]
fn raw_i32_array() {
    // encoding 0, count 2: exactly 1 + 12 + 8 bytes consumed
    let mut v = array_header(b'i', 2, 0, 0);
    v.extend_from_slice(&7i32.to_le_bytes());
    v.extend_from_slice(&(-1i32).to_le_bytes());
    assert_eq!(decode_property(&v, 0), Ok((Property::I32Array(vec![7, -1]), 21)));
}

#[test]
fn raw_i32_array_ignores_trailing_bytes() {
    let mut v = array_header(b'i', 1, 0, 0);
    v.extend_from_slice(&42i32.to_le_bytes());
    v.extend_from_slice(&[0xaa, 0xbb]); // bytes past the array
    assert_eq!(decode_property(&v, 0), Ok((Property::I32Array(vec![42]), 17)));
}

#[test]
fn compressed_i32_array() {
    // whatever compressed bytes stand in the file, the elements are
    // the inflated payload's little-endian groups
    let mut payload = Vec::new();
    for x in [1i32, 2, 3, 4] {
        payload.extend_from_slice(&x.to_le_bytes());
    }
    let comp = zlib_compress(&payload);
    let mut v = array_header(b'i', 4, 1, comp.len() as u32);
    v.extend_from_slice(&comp);
    let expect_len = 13 + comp.len();
    assert_eq!(
        decode_property(&v, 0),
        Ok((Property::I32Array(vec![1, 2, 3, 4]), expect_len))
    );
}

#[test]
fn compressed_f64_array() {
    let mut payload = Vec::new();
    for x in [0.5f64, -1.25] {
        payload.extend_from_slice(&x.to_le_bytes());
    }
    let comp = zlib_compress(&payload);
    let mut v = array_header(b'd', 2, 1, comp.len() as u32);
    v.extend_from_slice(&comp);
    let (p, _) = decode_property(&v, 0).unwrap();
    assert_eq!(
        p,
        Property::F64BitsArray(vec![0.5f64.to_bits(), (-1.25f64).to_bits()])
    );
}

#[test]
fn compressed_garbage_fails() {
    let mut v = array_header(b'i', 1, 1, 4);
    v.extend_from_slice(&[1, 2, 3, 4]); // not a zlib stream
    assert_eq!(decode_property(&v, 0), Err(FbxError::DecompressFailed));
}

#[test]
fn compressed_wrong_length_fails() {
    // a valid stream that inflates to 8 bytes cannot fill 4 i32s
    let comp = zlib_compress(&[0u8; 8]);
    let mut v = array_header(b'i', 4, 1, comp.len() as u32);
    v.extend_from_slice(&comp);
    assert_eq!(decode_property(&v, 0), Err(FbxError::DecompressFailed));
}

#[test]
fn unknown_encoding_fails() {
    let mut v = array_header(b'i', 1, 2, 0);
    v.extend_from_slice(&42i32.to_le_bytes());
    assert_eq!(decode_property(&v, 0), Err(FbxError::UnknownArrayEncoding));
}

#[test]
fn bool_array() {
    let mut v = array_header(b'b', 3, 0, 0);
    v.extend_from_slice(&[1, 0, 2]); // again, only 1 means true
    assert_eq!(
        decode_property(&v, 0),
        Ok((Property::BArray(vec![true, false, false]), 16))
    );
}

#[test]
fn i8_array() {
    let mut v = array_header(b'c', 2, 0, 0);
    v.extend_from_slice(&[0xff, 0x7f]);
    assert_eq!(decode_property(&v, 0), Ok((Property::I8Array(vec![-1, 127]), 15)));
}

#[test]
fn i64_array() {
    let mut v = array_header(b'l', 1, 0, 0);
    v.extend_from_slice(&(1i64 << 40).to_le_bytes());
    assert_eq!(decode_property(&v, 0), Ok((Property::I64Array(vec![1i64 << 40]), 21)));
}

#[test]
fn f32_array_bits() {
    let mut v = array_header(b'f', 2, 0, 0);
    v.extend_from_slice(&1.5f32.to_le_bytes());
    v.extend_from_slice(&(-0.5f32).to_le_bytes());
    assert_eq!(
        decode_property(&v, 0),
        Ok((
            Property::F32BitsArray(vec![1.5f32.to_bits(), (-0.5f32).to_bits()]),
            21
        ))
    );
}

#[test]
fn array_truncated_fails() {
    let mut v = array_header(b'i', 3, 0, 0);
    v.extend_from_slice(&7i32.to_le_bytes()); // one element given, three declared
    assert_eq!(decode_property(&v, 0), Err(FbxError::Truncated));
}

#[test]
fn scalar_truncated_fails() {
    let v = vec![b'L', 1, 2, 3];
    assert_eq!(decode_property(&v, 0), Err(FbxError::Truncated));
}

#[test]
fn raw_array_direct() {
    let mut v = 4u32.to_le_bytes().to_vec();
    v.extend_from_slice(&[5, 6, 7, 8]);
    assert_eq!(decode_raw_array(&v, 0), Ok((vec![5, 6, 7, 8], 8)));
}

#[test]
fn raw_array_short_fails() {
    let mut v = 5u32.to_le_bytes().to_vec();
    v.extend_from_slice(&[5, 6, 7]);
    assert_eq!(decode_raw_array(&v, 0), Err(FbxError::Truncated));
}

#[test]
fn string_direct() {
    let mut v = 2u32.to_le_bytes().to_vec();
    v.extend_from_slice(b"ok");
    assert_eq!(decode_string(&v, 0), Ok((String::from("ok"), 6)));
}

#[test]
fn string_direct_not_utf8() {
    let mut v = 2u32.to_le_bytes().to_vec();
    v.extend_from_slice(&[0xc0, 0x00]);
    assert_eq!(decode_string(&v, 0), Err(FbxError::StringNotUtf8));
}

#[test]
fn property_mid_buffer() {
    // decoding starts at the given position, not at the buffer's start
    let mut v = vec![0xaa, 0xbb];
    v.push(b'I');
    v.extend_from_slice(&9i32.to_le_bytes());
    assert_eq!(decode_property(&v, 2), Ok((Property::I32(9), 7)));
}
