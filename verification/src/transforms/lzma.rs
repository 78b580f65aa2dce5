//! The LZMA/XZ compression stage: whole-buffer compression through the
//! `xz2` crate, no custom framing.
use crate::error::PipelineError;
use vstd::prelude::*;

verus! {

/// What the XZ decompressor recovers from a buffer: the original bytes for
/// a well-formed stream, nothing for a malformed one.  The decompressor is
/// a pure function of its input, so its result can be named.
pub uninterp spec fn xz_unpack(bytes: Seq<u8>) -> Option<Seq<u8>>;

/// Relies on xz2's XzEncoder (liblzma): compressing into an in-memory
/// buffer cannot fail (short of the allocator giving out), and
/// decompressing what the encoder produced, at any preset, yields the
/// original bytes.
#[verifier::external_body]
pub(crate) fn xz_compress_raw(data: &[u8]) -> (r: Result<Vec<u8>, String>)
    ensures
        r is Ok,
        r matches Ok(out) ==> xz_unpack(out@) == Some(data@),
{
    let mut encoder = xz2::write::XzEncoder::new(Vec::new(), 9);
    if let Err(e) = std::io::Write::write_all(&mut encoder, data) {
        return Err(e.to_string());
    }
    encoder.finish().map_err(|e| e.to_string())
}

/// Relies on xz2's XzDecoder (liblzma): it recovers exactly the bytes a
/// well-formed XZ stream compresses, and fails on a malformed one.
#[verifier::external_body]
pub(crate) fn xz_decompress_raw(data: &[u8]) -> (r: Result<Vec<u8>, String>)
    ensures
        match xz_unpack(data@) {
            Some(p) => r matches Ok(out) && out@ == p,
            None => r is Err,
        },
{
    let mut decoder = xz2::write::XzDecoder::new(Vec::new());
    if let Err(e) = std::io::Write::write_all(&mut decoder, data) {
        return Err(e.to_string());
    }
    decoder.finish().map_err(|e| e.to_string())
}

/// The LZMA/XZ compression stage.
#[derive(Debug)]
pub struct LzmaTransform;

impl LzmaTransform {
    /// Compresses the payload: always succeeds, and decompressing what
    /// the compressor emitted recovers the payload.
    pub fn encode(&self, data: Vec<u8>) -> (r: Result<Vec<u8>, PipelineError>)
        ensures
            r is Ok,
            r matches Ok(out) ==> xz_unpack(out@) == Some(data@),
    {
        match xz_compress_raw(data.as_slice()) {
            Ok(v) => Ok(v),
            Err(m) => Err(PipelineError::Lzma(m)),
        }
    }

    /// Decompresses the payload: exactly what the XZ stream holds, or an
    /// error for a malformed stream.
    pub fn decode(&self, data: Vec<u8>) -> (r: Result<Vec<u8>, PipelineError>)
        ensures
            match xz_unpack(data@) {
                Some(p) => r matches Ok(out) && out@ == p,
                None => r matches Err(e) && e matches PipelineError::Lzma(_),
            },
    {
        match xz_decompress_raw(data.as_slice()) {
            Ok(v) => Ok(v),
            Err(m) => Err(PipelineError::Lzma(m)),
        }
    }

    /// The stage's display name.
    pub fn name(&self) -> (r: &'static str)
        ensures
            r@ == "LZMA Compression"@,
    {
        "LZMA Compression"
    }

    /// The stage's file extension for intermediate artifacts.
    pub fn extension(&self) -> (r: &'static str)
        ensures
            r@ == "xz"@,
    {
        "xz"
    }
}

} // verus!
