//! High-density storage of repair solutions: zlib (flate2) compression
//! standing in for the AAAK dialect.
use vstd::prelude::*;
use flate2::read::ZlibDecoder;
use flate2::write::ZlibEncoder;
use flate2::Compression;
use std::io::{Read, Write};

verus! {

/// The zlib stream flate2 produces for `data` at the default level.
pub uninterp spec fn zlib_compress(data: Seq<u8>) -> Seq<u8>;

/// What flate2's zlib decoder reads out of `data`, or `None` when `data` is
/// not a zlib stream it can decode.
pub uninterp spec fn zlib_decompress(data: Seq<u8>) -> Option<Seq<u8>>;

/// Compresses with flate2's `ZlibEncoder` at `Compression::default()` into a
/// vector. The result is named `zlib_compress(data)`; writing into a vector
/// does not fail.
#[verifier::external_body]
fn zlib_encode(data: &[u8]) -> (r: Vec<u8>)
    ensures
        r@ == zlib_compress(data@),
{
    let mut encoder = ZlibEncoder::new(Vec::new(), Compression::default());
    encoder.write_all(data).expect("writing to a vector does not fail");
    encoder.finish().expect("writing to a vector does not fail")
}

/// Decompresses with flate2's `ZlibDecoder`, reading to the end; `None` when
/// the decoder reports an error. The result is named `zlib_decompress(data)`,
/// and, zlib being lossless, decoding a stream that flate2's encoder produced
/// for `x` gives back `x`.
#[verifier::external_body]
fn zlib_decode(data: &[u8]) -> (r: Option<Vec<u8>>)
    ensures
        r is Some ==> zlib_decompress(data@) == Some(r.unwrap()@),
        r is None ==> zlib_decompress(data@) is None,
        r is None ==> forall|x: Seq<u8>| #[trigger] zlib_compress(x) != data@,
        r is Some ==> forall|x: Seq<u8>| #[trigger] zlib_compress(x) == data@ ==> r.unwrap()@ == x,
{
    let mut decoder = ZlibDecoder::new(data);
    let mut decoded = Vec::new();
    match decoder.read_to_end(&mut decoded) {
        Ok(_) => Some(decoded),
        Err(_) => None,
    }
}

/// AAK encoder for high-density storage of repair solutions.
pub struct AAKEncoder;

impl Default for AAKEncoder {
    fn default() -> (e: Self)
        ensures
            e == AAKEncoder,
    {
        AAKEncoder::new()
    }
}

impl AAKEncoder {
    pub fn new() -> (e: Self)
        ensures
            e == AAKEncoder,
    {
        AAKEncoder
    }

    /// Encodes a solution (zlib at the default level).
    pub fn encode(&self, solution: &[u8]) -> (r: Vec<u8>)
        ensures
            r@ == zlib_compress(solution@),
    {
        zlib_encode(solution)
    }

    /// Decodes an encoded solution, or `None` when it cannot be decoded.
    /// Decoding what `encode` produced gives back the original solution.
    pub fn try_decode(&self, encoded: &[u8]) -> (r: Option<Vec<u8>>)
        ensures
            r is Some ==> zlib_decompress(encoded@) == Some(r.unwrap()@),
            r is None ==> zlib_decompress(encoded@) is None,
            forall|x: Seq<u8>| #[trigger] zlib_compress(x) == encoded@ ==> (r is Some && r.unwrap()@ == x),
    {
        match zlib_decode(encoded) {
            Some(_) => Some(self.decode(encoded)),
            None => None,
        }
    }

    /// Decodes an encoded solution back to its original form. Decoding what
    /// `encode` produced gives back the original solution.
    pub fn decode(&self, encoded: &[u8]) -> (r: Vec<u8>)
        requires
            zlib_decompress(encoded@) is Some,
        ensures
            zlib_decompress(encoded@) == Some(r@),
            forall|x: Seq<u8>| #[trigger] zlib_compress(x) == encoded@ ==> r@ == x,
    {
        match zlib_decode(encoded) {
            Some(v) => v,
            None => Vec::new(),
        }
    }
}

} // verus!
