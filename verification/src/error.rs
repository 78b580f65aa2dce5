use vstd::prelude::*;

verus! {

/// Failure of the raw-image stage: either the plane header is malformed or
/// the underlying image codec rejected the data.
#[derive(Debug)]
pub enum ImageError {
    /// The buffer is shorter than the 9-byte plane header.
    TooShort,
    /// The format byte of the plane header is not the RGBA marker.
    UnsupportedFormat,
    /// The buffer length does not match the dimensions in the header.
    LengthMismatch,
    /// The plane declares a zero width or height, which no image
    /// container can carry.
    ZeroDimension,
    /// The plane is larger than the image codec is allowed to decode
    /// back, so re-encoding it is refused.
    PlaneTooLarge,
    /// The image codec itself failed to read or write the container.
    Codec(String),
}

/// Failure of the document-embedding stage.
#[derive(Debug)]
pub enum PdfError {
    /// The document parsed, but the custom info-dictionary key that should
    /// reference the payload stream is absent.
    PayloadMissing,
    /// The info-dictionary key resolved to an object that is not a stream.
    NotAStream,
    /// The document library failed to parse or write the document.
    Codec(String),
}

/// Failure of the Unicode steganographic stage.
#[derive(Debug)]
pub enum UnicodeError {
    /// The input is not valid UTF-8.
    InvalidUtf8,
    /// Fewer than the three header characters are present.
    MissingHeader,
    /// A header character lies below the CJK base codepoint.
    InvalidHeaderChar,
    /// The number of decodable body bytes falls short of the declared length.
    LengthMismatch,
    /// The payload is too long for the 42-bit length header.
    PayloadTooLarge,
}

/// Failure of the audio stage.
#[derive(Debug)]
pub enum WavError {
    /// The waveform holds fewer samples than the declared payload needs.
    TooFewSamples { have: usize, need: u64 },
    /// The audio container library failed to read or write the waveform.
    Container(String),
    /// The payload's waveform would overflow the container's 32-bit
    /// size fields.
    PayloadTooLarge,
}

/// One error type for the whole pipeline, tagged by the stage kind that
/// produced it.  A failure crossing the orchestrator boundary is wrapped in
/// `Step` with the 1-based step index and the stage name, in the traversal
/// direction that was used.
#[derive(Debug)]
pub enum PipelineError {
    Image(ImageError),
    Pdf(PdfError),
    Lzma(String),
    Flate(String),
    Unicode(UnicodeError),
    Wav(WavError),
    InvalidData(String),
    Step { step: usize, name: String, source: Box<PipelineError> },
}

} // verus!
