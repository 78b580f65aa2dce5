//! The transform contract: the capability every pipeline stage offers.
//! The stage vocabulary is fixed and finite, so the contract is a closed
//! tagged-variant type over the six stages, dispatched by exhaustive
//! matching; every stage obeys the round-trip law stated by
//! `stage_encode_rel` and `stage_decode_rel`.
use crate::error::{PipelineError, UnicodeError};
use crate::transforms::flate::{gzip_unpack, GzipTransform};
use crate::transforms::image::{plane_bytes, plane_parse, png_pixels, ImageTransform};
use crate::transforms::lzma::{xz_unpack, LzmaTransform};
use crate::transforms::pdf::{pdf_extract_of, PdfTransform};
use crate::transforms::unicode::{unicode_decode_spec, unicode_encode_spec, UnicodeTransform};
use crate::transforms::wav::{qam_decode_spec, qam_encode_spec, wav_samples, WavTransform};
use vstd::prelude::*;

verus! {

/// A pipeline stage: a named, stateless, bidirectional byte-stream codec.
#[derive(Debug)]
pub enum Transform {
    Image(ImageTransform),
    Pdf(PdfTransform),
    Lzma(LzmaTransform),
    Unicode(UnicodeTransform),
    Wav(WavTransform),
    Gzip(GzipTransform),
}

/// The inputs a stage's encoder accepts: all byte buffers, except that
/// the Unicode stage's 42-bit length header bounds its payload, and the
/// audio stage's waveform must fit the WAV container's 32-bit size
/// fields (oversampled samples plus at most 68 bytes of header).
pub open spec fn encode_pre(t: Transform, input: Seq<u8>) -> bool {
    match t {
        Transform::Unicode(_) => input.len() < 0x400_0000_0000,
        Transform::Wav(_) => 128 + 8 * input.len() + 68 <= 0xFFFF_FFFF,
        _ => true,
    }
}

/// How a stage's encoded output relates to its input: the round-trip law
/// of each stage, phrased through the codec model that its decoder is
/// specified against.
pub open spec fn stage_encode_rel(t: Transform, input: Seq<u8>, output: Seq<u8>) -> bool {
    match t {
        Transform::Image(_) => png_pixels(input) matches Some(tr) && output == plane_bytes(
            tr.0,
            tr.1,
            tr.2,
        ),
        Transform::Pdf(_) => pdf_extract_of(output) == Ok::<Seq<u8>, int>(input),
        Transform::Lzma(_) => xz_unpack(output) == Some(input),
        Transform::Unicode(_) => input.len() < 0x400_0000_0000 && output == unicode_encode_spec(
            input,
        ),
        Transform::Wav(_) => input.len() < 0x1_0000_0000 && wav_samples(output) == Some(
            qam_encode_spec(input),
        ),
        Transform::Gzip(_) => gzip_unpack(output) == Some(input),
    }
}

/// How a stage's decoded output relates to its input.
pub open spec fn stage_decode_rel(t: Transform, input: Seq<u8>, output: Seq<u8>) -> bool {
    match t {
        Transform::Image(_) => plane_parse(input) matches Some(tr) && png_pixels(output) == Some(
            tr,
        ),
        Transform::Pdf(_) => pdf_extract_of(input) == Ok::<Seq<u8>, int>(output),
        Transform::Lzma(_) => xz_unpack(input) == Some(output),
        Transform::Unicode(_) => unicode_decode_spec(input) == Some(output),
        Transform::Wav(_) => wav_samples(input) matches Some(s) && qam_decode_spec(s) == Some(
            output,
        ),
        Transform::Gzip(_) => gzip_unpack(input) == Some(output),
    }
}

/// The inputs on which a stage's encoder owes success: the stage's
/// encoder precondition, and — for the image stage alone — an input the
/// image codec can decode.
pub open spec fn stage_encode_ok(t: Transform, input: Seq<u8>) -> bool {
    encode_pre(t, input) && (t matches Transform::Image(_) ==> png_pixels(input) is Some)
}

/// The inputs on which a stage's decoder owes success: its codec model
/// accepts the input, and — for the image stage alone — the parsed plane
/// has nonzero dimensions within the supported size, so its container
/// re-encodes.
pub open spec fn stage_decode_ok(t: Transform, input: Seq<u8>) -> bool {
    !stage_decode_fails(t, input) && (t matches Transform::Image(_) ==> (plane_parse(input)
        matches Some(tr) && tr.0 > 0 && tr.1 > 0 && tr.2.len() <= 0x1000_0000))
}

/// The inputs a stage's decoder must reject.
pub open spec fn stage_decode_fails(t: Transform, input: Seq<u8>) -> bool {
    match t {
        Transform::Image(_) => plane_parse(input) is None,
        Transform::Pdf(_) => pdf_extract_of(input) is Err,
        Transform::Lzma(_) => xz_unpack(input) is None,
        Transform::Unicode(_) => unicode_decode_spec(input) is None,
        Transform::Wav(_) => wav_samples(input) is None || (wav_samples(input) matches Some(s)
            && qam_decode_spec(s) is None),
        Transform::Gzip(_) => gzip_unpack(input) is None,
    }
}

/// The stage's display name.
pub open spec fn stage_name_spec(t: Transform) -> Seq<char> {
    match t {
        Transform::Image(_) => "PNG serialization"@,
        Transform::Pdf(_) => "PDF"@,
        Transform::Lzma(_) => "LZMA Compression"@,
        Transform::Unicode(_) => "Unicode Encoding"@,
        Transform::Wav(_) => "WAV Audio"@,
        Transform::Gzip(_) => "Gzip Compression"@,
    }
}

/// The stage's file extension for its encoded form.
pub open spec fn stage_extension_spec(t: Transform) -> Seq<char> {
    match t {
        Transform::Image(_) => "bin"@,
        Transform::Pdf(_) => "pdf"@,
        Transform::Lzma(_) => "xz"@,
        Transform::Unicode(_) => "txt"@,
        Transform::Wav(_) => "wav"@,
        Transform::Gzip(_) => "gz"@,
    }
}

/// The stage's display name lower-cased with spaces replaced by
/// underscores, as intermediate artifact names use it.
pub open spec fn stage_stem_spec(t: Transform) -> Seq<char> {
    match t {
        Transform::Image(_) => "png_serialization"@,
        Transform::Pdf(_) => "pdf"@,
        Transform::Lzma(_) => "lzma_compression"@,
        Transform::Unicode(_) => "unicode_encoding"@,
        Transform::Wav(_) => "wav_audio"@,
        Transform::Gzip(_) => "gzip_compression"@,
    }
}

impl Transform {
    /// Applies the stage's encoder.  An oversized payload (one the
    /// stage's length header or container cannot hold) is rejected rather
    /// than truncated; every stage but the image stage (whose input must
    /// first decode as an image container) succeeds on every payload it
    /// accepts.
    pub fn encode(&self, data: Vec<u8>) -> (r: Result<Vec<u8>, PipelineError>)
        ensures
            r matches Ok(out) ==> stage_encode_rel(*self, data@, out@),
            !encode_pre(*self, data@) ==> r is Err,
            stage_encode_ok(*self, data@) ==> r is Ok,
            self matches Transform::Image(_) && png_pixels(data@) is None ==> r is Err,
    {
        match self {
            Transform::Image(t) => t.encode(data),
            Transform::Pdf(t) => t.encode(data),
            Transform::Lzma(t) => t.encode(data),
            Transform::Unicode(t) => {
                if data.len() as u64 >= 0x400_0000_0000u64 {
                    return Err(PipelineError::Unicode(UnicodeError::PayloadTooLarge));
                }
                t.encode(data)
            },
            Transform::Wav(t) => {
                if data.len() as u64 > 536_870_887u64 {
                    return Err(PipelineError::Wav(crate::error::WavError::PayloadTooLarge));
                }
                t.encode(data)
            },
            Transform::Gzip(t) => t.encode(data),
        }
    }

    /// Applies the stage's decoder: exactly the payload its codec model
    /// recovers, with rejection exactly where the model rejects.  Every
    /// stage but the image stage succeeds whenever its model does; the
    /// image stage additionally needs nonzero dimensions within the
    /// supported plane size to re-encode its container.
    pub fn decode(&self, data: Vec<u8>) -> (r: Result<Vec<u8>, PipelineError>)
        ensures
            r matches Ok(out) ==> stage_decode_rel(*self, data@, out@),
            stage_decode_fails(*self, data@) ==> r is Err,
            stage_decode_ok(*self, data@) ==> r is Ok,
    {
        match self {
            Transform::Image(t) => t.decode(data),
            Transform::Pdf(t) => t.decode(data),
            Transform::Lzma(t) => t.decode(data),
            Transform::Unicode(t) => t.decode(data),
            Transform::Wav(t) => t.decode(data),
            Transform::Gzip(t) => t.decode(data),
        }
    }

    /// The stage's display name.
    pub fn name(&self) -> (r: &'static str)
        ensures
            r@ == stage_name_spec(*self),
    {
        match self {
            Transform::Image(t) => t.name(),
            Transform::Pdf(t) => t.name(),
            Transform::Lzma(t) => t.name(),
            Transform::Unicode(t) => t.name(),
            Transform::Wav(t) => t.name(),
            Transform::Gzip(t) => t.name(),
        }
    }

    /// The stage's file extension for intermediate artifacts.
    pub fn extension(&self) -> (r: &'static str)
        ensures
            r@ == stage_extension_spec(*self),
    {
        match self {
            Transform::Image(t) => t.extension(),
            Transform::Pdf(t) => t.extension(),
            Transform::Lzma(t) => t.extension(),
            Transform::Unicode(t) => t.extension(),
            Transform::Wav(t) => t.extension(),
            Transform::Gzip(t) => t.extension(),
        }
    }

    /// The stage's artifact-name stem: its display name lower-cased with
    /// spaces replaced by underscores.  The set of names is closed, so the
    /// six results are spelled out.
    pub fn stem(&self) -> (r: &'static str)
        ensures
            r@ == stage_stem_spec(*self),
    {
        match self {
            Transform::Image(_) => "png_serialization",
            Transform::Pdf(_) => "pdf",
            Transform::Lzma(_) => "lzma_compression",
            Transform::Unicode(_) => "unicode_encoding",
            Transform::Wav(_) => "wav_audio",
            Transform::Gzip(_) => "gzip_compression",
        }
    }
}

/// Encoding and then decoding through any one non-image stage gives the
/// original payload back: each codec model inverts its encoder exactly.
/// (The image stage re-encodes a container and preserves the pixel plane
/// rather than the container bytes; its guarantee is `stage_decode_rel`.)
pub proof fn lemma_stage_round_trip(t: Transform, input: Seq<u8>, encoded: Seq<u8>, decoded: Seq<u8>)
    requires
        !(t matches Transform::Image(_)),
        stage_encode_rel(t, input, encoded),
        stage_decode_rel(t, encoded, decoded),
    ensures
        decoded == input,
{
    match t {
        Transform::Unicode(_) => {
            crate::transforms::unicode::lemma_unicode_round_trip(input);
        },
        Transform::Wav(_) => {
            crate::transforms::wav::lemma_qam_round_trip(input);
        },
        _ => {},
    }
}

} // verus!
