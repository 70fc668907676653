//! Trusted adapters around the two outside computations the decoder
//! needs: one-shot zlib inflation and UTF-8 text decoding.
//!
//! Both computations are functions of their input bytes alone, so each
//! is given an uninterpreted name that the rest of the library's
//! contracts are stated over. Nothing else is assumed of them.

use vstd::prelude::*;

verus! {

/// What one-shot zlib inflation yields on `data`: the decompressed
/// bytes if `data` is a complete, well-formed zlib stream, and nothing
/// otherwise.
pub uninterp spec fn inflate_of(data: Seq<u8>) -> Option<Seq<u8>>;

/// What UTF-8 decoding yields on `data`: the decoded text if `data` is
/// valid UTF-8, and nothing otherwise.
pub uninterp spec fn utf8_of(data: Seq<u8>) -> Option<Seq<char>>;

/// Relies on flate2's zlib decoder (`flate2::bufread::ZlibDecoder`):
/// inflating a whole buffer in one shot either consumes a well-formed
/// zlib stream and returns its decompressed bytes, or fails; the
/// outcome depends on the input bytes alone.
#[verifier::external_body]
pub(crate) fn inflate(data: &[u8]) -> (r: Option<Vec<u8>>)
    ensures
        match r {
            Some(v) => inflate_of(data@) == Some(v@),
            None => inflate_of(data@) is None,
        },
{
    let mut out: Vec<u8> = Vec::new();
    let mut dec = flate2::bufread::ZlibDecoder::new(data);
    match std::io::Read::read_to_end(&mut dec, &mut out) {
        Ok(_) => Some(out),
        Err(_) => None,
    }
}

/// Relies on `String::from_utf8`: it succeeds exactly on valid UTF-8
/// input, and the text it returns is a function of the bytes alone.
#[verifier::external_body]
pub(crate) fn string_from_utf8(data: Vec<u8>) -> (r: Option<String>)
    ensures
        match r {
            Some(s) => utf8_of(data@) == Some(s@),
            None => utf8_of(data@) is None,
        },
{
    String::from_utf8(data).ok()
}

} // verus!
