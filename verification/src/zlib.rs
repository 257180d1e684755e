//! Optional compression of the plaintext blob: DEFLATE with a zlib wrapper at
//! the default level, as the wire format's `"zlib"` compression type records.

use std::io::Write;
use vstd::prelude::*;

verus! {

/// The zlib-wrapped DEFLATE stream produced from `data` at the default
/// compression level. Deterministic in the input bytes; its value is not
/// axiomatized here.
pub uninterp spec fn deflate_of(data: Seq<u8>) -> Seq<u8>;

/// Relies on `flate2::write::ZlibEncoder` at `Compression::default()`:
/// deterministic compression of the input bytes.
#[verifier::external_body]
pub(crate) fn zlib_compress(data: &[u8]) -> (r: Vec<u8>)
    ensures
        r@ == deflate_of(data@),
{
    let mut enc = flate2::write::ZlibEncoder::new(Vec::new(), flate2::Compression::default());
    if enc.write_all(data).is_err() {
        return Vec::new();
    }
    enc.finish().unwrap_or_default()
}

/// Relies on `flate2::write::ZlibDecoder`: decompression inverts compression,
/// so a stream that some input compresses to decompresses back to exactly
/// that input.
#[verifier::external_body]
pub(crate) fn zlib_decompress(data: &[u8]) -> (r: Option<Vec<u8>>)
    ensures
        r matches Some(v) ==> forall|p: Seq<u8>| data@ == deflate_of(p) ==> p == v@,
        r is None ==> forall|p: Seq<u8>| data@ != deflate_of(p),
{
    let mut dec = flate2::write::ZlibDecoder::new(Vec::new());
    if dec.write_all(data).is_err() {
        return None;
    }
    dec.finish().ok()
}

} // verus!
