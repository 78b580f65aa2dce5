//! Builders mapping the stage vocabulary to pipelines: the default
//! five-stage chain, and a custom chain from an explicit ordered list.
use crate::cli::TransformType;
use crate::pipeline::Pipeline;
use crate::transform::Transform;
use crate::transforms::flate::GzipTransform;
use crate::transforms::image::ImageTransform;
use crate::transforms::lzma::LzmaTransform;
use crate::transforms::pdf::PdfTransform;
use crate::transforms::unicode::UnicodeTransform;
use crate::transforms::wav::WavTransform;
use vstd::prelude::*;

verus! {

/// The stage a vocabulary entry names.
pub open spec fn transform_of_spec(t: TransformType) -> Transform {
    match t {
        TransformType::Image => Transform::Image(ImageTransform),
        TransformType::Pdf => Transform::Pdf(PdfTransform),
        TransformType::Lzma => Transform::Lzma(LzmaTransform),
        TransformType::Unicode => Transform::Unicode(UnicodeTransform),
        TransformType::Wav => Transform::Wav(WavTransform),
        TransformType::Gzip => Transform::Gzip(GzipTransform),
    }
}

/// The default pipeline's stage list: image, pdf, lzma, unicode, wav.
pub open spec fn default_stages_spec() -> Seq<Transform> {
    seq![
        Transform::Image(ImageTransform),
        Transform::Pdf(PdfTransform),
        Transform::Lzma(LzmaTransform),
        Transform::Unicode(UnicodeTransform),
        Transform::Wav(WavTransform),
    ]
}

/// Builds the default pipeline: image, pdf, lzma, unicode, wav, with
/// intermediate persistence off.
pub fn build_default_pipeline() -> (p: Pipeline)
    ensures
        p.transforms@ == default_stages_spec(),
        !p.save_intermediates,
{
    let p = Pipeline::new().add(Transform::Image(ImageTransform)).add(
        Transform::Pdf(PdfTransform),
    ).add(Transform::Lzma(LzmaTransform)).add(Transform::Unicode(UnicodeTransform)).add(
        Transform::Wav(WavTransform),
    );
    proof {
        assert(p.transforms@ =~= default_stages_spec());
    }
    p
}

/// Builds a pipeline from an explicit ordered stage list, preserving the
/// list's order exactly, with intermediate persistence off.
pub fn build_custom_pipeline(types: &[TransformType]) -> (p: Pipeline)
    ensures
        p.transforms@.len() == types@.len(),
        forall|k: int|
            0 <= k < types@.len() ==> p.transforms@[k] == transform_of_spec(#[trigger] types@[k]),
        !p.save_intermediates,
{
    let mut pipeline = Pipeline::new();
    let mut i: usize = 0;
    while i < types.len()
        invariant
            i <= types@.len(),
            pipeline.transforms@.len() == i,
            forall|k: int|
                0 <= k < i ==> pipeline.transforms@[k] == transform_of_spec(
                    #[trigger] types@[k],
                ),
            !pipeline.save_intermediates,
        decreases types@.len() - i,
    {
        let t = types[i];
        pipeline = match t {
            TransformType::Image => pipeline.add(Transform::Image(ImageTransform)),
            TransformType::Pdf => pipeline.add(Transform::Pdf(PdfTransform)),
            TransformType::Lzma => pipeline.add(Transform::Lzma(LzmaTransform)),
            TransformType::Unicode => pipeline.add(Transform::Unicode(UnicodeTransform)),
            TransformType::Wav => pipeline.add(Transform::Wav(WavTransform)),
            TransformType::Gzip => pipeline.add(Transform::Gzip(GzipTransform)),
        };
        i = i + 1;
    }
    pipeline
}

} // verus!
