//! Whole-buffer XZ compression helpers.
use crate::transforms::lzma::{xz_compress_raw, xz_decompress_raw, xz_unpack};
use vstd::prelude::*;

verus! {

/// Compresses a buffer as one XZ stream: always succeeds, and the stream
/// decompresses back to the buffer.
pub fn compress_lzma(data: &[u8]) -> (r: Result<Vec<u8>, String>)
    ensures
        r is Ok,
        r matches Ok(out) ==> xz_unpack(out@) == Some(data@),
{
    xz_compress_raw(data)
}

/// Decompresses one XZ stream: exactly the bytes it compresses, or an
/// error for a malformed stream.
pub fn decompress_lzma(data: &[u8]) -> (r: Result<Vec<u8>, String>)
    ensures
        match xz_unpack(data@) {
            Some(p) => r matches Ok(out) && out@ == p,
            None => r is Err,
        },
{
    xz_decompress_raw(data)
}

} // verus!
