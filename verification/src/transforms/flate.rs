//! The gzip compression stage: whole-buffer compression through the
//! `flate2` crate, no custom framing.
use crate::error::PipelineError;
use vstd::prelude::*;

verus! {

/// What the gzip decompressor recovers from a buffer: the original bytes
/// for a well-formed stream, nothing for a malformed one.  The
/// decompressor is a pure function of its input, so its result can be
/// named.
pub uninterp spec fn gzip_unpack(bytes: Seq<u8>) -> Option<Seq<u8>>;

/// Relies on flate2's GzEncoder: compressing into an in-memory buffer
/// cannot fail, and decompressing what the encoder produced yields the
/// original bytes.
#[verifier::external_body]
fn gzip_compress_raw(data: &[u8]) -> (r: Result<Vec<u8>, String>)
    ensures
        r is Ok,
        r matches Ok(out) ==> gzip_unpack(out@) == Some(data@),
{
    let mut encoder = flate2::write::GzEncoder::new(Vec::new(), flate2::Compression::default());
    if let Err(e) = std::io::Write::write_all(&mut encoder, data) {
        return Err(e.to_string());
    }
    encoder.finish().map_err(|e| e.to_string())
}

/// Relies on flate2's GzDecoder: it recovers exactly the bytes a
/// well-formed gzip stream compresses, and fails on a malformed one.
#[verifier::external_body]
fn gzip_decompress_raw(data: &[u8]) -> (r: Result<Vec<u8>, String>)
    ensures
        match gzip_unpack(data@) {
            Some(p) => r matches Ok(out) && out@ == p,
            None => r is Err,
        },
{
    let mut decoder = flate2::write::GzDecoder::new(Vec::new());
    if let Err(e) = std::io::Write::write_all(&mut decoder, data) {
        return Err(e.to_string());
    }
    decoder.finish().map_err(|e| e.to_string())
}

/// The gzip compression stage.
#[derive(Debug)]
pub struct GzipTransform;

impl GzipTransform {
    /// Compresses the payload: always succeeds, and decompressing what
    /// the compressor emitted recovers the payload.
    pub fn encode(&self, data: Vec<u8>) -> (r: Result<Vec<u8>, PipelineError>)
        ensures
            r is Ok,
            r matches Ok(out) ==> gzip_unpack(out@) == Some(data@),
    {
        match gzip_compress_raw(data.as_slice()) {
            Ok(v) => Ok(v),
            Err(m) => Err(PipelineError::Flate(m)),
        }
    }

    /// Decompresses the payload: exactly what the gzip stream holds, or an
    /// error for a malformed stream.
    pub fn decode(&self, data: Vec<u8>) -> (r: Result<Vec<u8>, PipelineError>)
        ensures
            match gzip_unpack(data@) {
                Some(p) => r matches Ok(out) && out@ == p,
                None => r matches Err(e) && e matches PipelineError::Flate(_),
            },
    {
        match gzip_decompress_raw(data.as_slice()) {
            Ok(v) => Ok(v),
            Err(m) => Err(PipelineError::Flate(m)),
        }
    }

    /// The stage's display name.
    pub fn name(&self) -> (r: &'static str)
        ensures
            r@ == "Gzip Compression"@,
    {
        "Gzip Compression"
    }

    /// The stage's file extension for intermediate artifacts.
    pub fn extension(&self) -> (r: &'static str)
        ensures
            r@ == "gz"@,
    {
        "gz"
    }
}

} // verus!
