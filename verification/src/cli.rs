//! The user-facing stage vocabulary: a closed set of six stage kinds,
//! each mapping one-to-one to a pipeline transform.
use vstd::prelude::*;

verus! {

/// One of the six stage kinds a pipeline can be built from.
#[derive(Clone, Copy, Debug, PartialEq, Eq, Structural)]
pub enum TransformType {
    Image,
    Pdf,
    Lzma,
    Unicode,
    Wav,
    Gzip,
}

impl TransformType {
    /// A one-line description of the stage kind.
    pub fn description(&self) -> (r: &'static str)
        ensures
            r@ == match *self {
                TransformType::Image => "Image serialization (PNG -> binary)"@,
                TransformType::Pdf => "PDF, stored in the /Info metadata"@,
                TransformType::Lzma => "LZMA/XZ compression"@,
                TransformType::Unicode => "Unicode, multimode encoding (CJK, Emojis, Hidden characters, etc)"@,
                TransformType::Wav => "WAV audio encoding (amplitude modulation)"@,
                TransformType::Gzip => "Gzip compression"@,
            },
    {
        match self {
            TransformType::Image => "Image serialization (PNG -> binary)",
            TransformType::Pdf => "PDF, stored in the /Info metadata",
            TransformType::Lzma => "LZMA/XZ compression",
            TransformType::Unicode => "Unicode, multimode encoding (CJK, Emojis, Hidden characters, etc)",
            TransformType::Wav => "WAV audio encoding (amplitude modulation)",
            TransformType::Gzip => "Gzip compression",
        }
    }
}

} // verus!
