use std::io::Read;
use std::io::Write;

use vstd::prelude::*;

use crate::error::StoreError;

verus! {

/// The zlib stream that compressing `data` at the default level produces.
/// The name stands for whatever `flate2` emits, which at a fixed level is
/// a function of the input bytes alone.
pub uninterp spec fn zlib_of(data: Seq<u8>) -> Seq<u8>;

/// Relies on `flate2::write::ZlibEncoder` at `Compression::default()`:
/// writing all bytes and finishing yields the complete compressed stream,
/// a function of the input bytes alone. Writing into a `Vec` sink cannot
/// fail.
#[verifier::external_body]
pub(crate) fn zlib_compress(data: &[u8]) -> (r: Vec<u8>)
    ensures
        r@ == zlib_of(data@),
{
    let mut enc = flate2::write::ZlibEncoder::new(Vec::new(), flate2::Compression::default());
    enc.write_all(data).expect("writing to a vector sink cannot fail");
    enc.finish().expect("finishing a vector sink cannot fail")
}

/// Relies on `flate2::read::ZlibDecoder`: reading a stream that
/// compression produced to its end yields back exactly the bytes that
/// were compressed; an input that ends before the stream is complete
/// reports `UnexpectedEof`, and malformed input reports another error
/// kind.
#[verifier::external_body]
pub(crate) fn zlib_decompress(data: &[u8]) -> (r: Result<Vec<u8>, StoreError>)
    ensures
        forall|p: Seq<u8>| data@ == zlib_of(p) ==> r is Ok && r->Ok_0@ == p,
        r is Err ==> r->Err_0 == StoreError::TruncatedStream || r->Err_0
            == StoreError::CorruptStream,
{
    let mut dec = flate2::read::ZlibDecoder::new(data);
    let mut out = Vec::new();
    match dec.read_to_end(&mut out) {
        Ok(_) => Ok(out),
        Err(e) if e.kind() == std::io::ErrorKind::UnexpectedEof => Err(
            StoreError::TruncatedStream,
        ),
        Err(_) => Err(StoreError::CorruptStream),
    }
}

} // verus!
