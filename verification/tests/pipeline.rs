use std::io::Cursor;
use wackypixels::cli::TransformType;
use wackypixels::error::{ImageError, PdfError, PipelineError};
use wackypixels::image_data;
use wackypixels::pipeline_builder::{build_custom_pipeline, build_default_pipeline};
use wackypixels::transform::Transform;
use wackypixels::transforms::flate::GzipTransform;
use wackypixels::transforms::image::ImageTransform;
use wackypixels::transforms::lzma::LzmaTransform;
use wackypixels::transforms::pdf::PdfTransform;
use wackypixels::transforms::unicode::UnicodeTransform;
use wackypixels::lzma::{compress_lzma, decompress_lzma};

fn png_of(width: u32, height: u32, pixels: &[u8]) -> Vec<u8> {
    let img = image::RgbaImage::from_raw(width, height, pixels.to_vec()).unwrap();
    let mut out: Vec<u8> = Vec::new();
    img.write_to(&mut Cursor::new(&mut out), image::ImageFormat::Png).unwrap();
    out
}

#[test]
fn lzma_round_trip() {
    let data = b"compress me, decompress me".to_vec();
    let packed = LzmaTransform.encode(data.clone()).unwrap();
    let unpacked = LzmaTransform.decode(packed).unwrap();
    assert_eq!(unpacked, data);
}

#[test]
fn lzma_helpers_round_trip() {
    let data = vec![7u8; 300];
    let packed = compress_lzma(&data).unwrap();
    assert_eq!(decompress_lzma(&packed).unwrap(), data);
    assert!(decompress_lzma(b"definitely not xz").is_err());
}

#[test]
fn lzma_rejects_garbage() {
    let r = LzmaTransform.decode(b"garbage".to_vec());
    assert!(matches!(r, Err(PipelineError::Lzma(_))));
}

#[test]
fn gzip_round_trip_and_rejects_garbage() {
    let data = b"deflate round trip".to_vec();
    let packed = GzipTransform.encode(data.clone()).unwrap();
    assert_eq!(GzipTransform.decode(packed).unwrap(), data);
    let r = GzipTransform.decode(b"garbage".to_vec());
    assert!(matches!(r, Err(PipelineError::Flate(_))));
}

#[test]
fn pdf_round_trip() {
    let data = b"hidden payload bytes".to_vec();
    let doc = PdfTransform.encode(data.clone()).unwrap();
    assert_eq!(&doc[0..5], b"%PDF-");
    let extracted = PdfTransform.decode(doc).unwrap();
    assert_eq!(extracted, data);
}

#[test]
fn pdf_missing_key_is_distinguishable() {
    // A well-formed document whose info dictionary lacks the custom key.
    let mut doc = lopdf::Document::with_version("1.7");
    let mut page = lopdf::Dictionary::new();
    page.set("Type", "Page");
    let page_id = doc.add_object(page);
    let mut pages = lopdf::Dictionary::new();
    pages.set("Type", "Pages");
    pages.set("Kids", vec![lopdf::Object::Reference(page_id)]);
    pages.set("Count", 1);
    let pages_id = doc.add_object(pages);
    let mut catalog = lopdf::Dictionary::new();
    catalog.set("Type", "Catalog");
    catalog.set("Pages", pages_id);
    let catalog_id = doc.add_object(catalog);
    doc.trailer.set("Root", catalog_id);
    let info_id = doc.add_object(lopdf::Dictionary::new());
    doc.trailer.set("Info", info_id);
    let mut bytes: Vec<u8> = Vec::new();
    doc.save_to(&mut Cursor::new(&mut bytes)).unwrap();

    let r = PdfTransform.decode(bytes);
    assert!(matches!(
        r,
        Err(PipelineError::Pdf(PdfError::PayloadMissing))
    ));
}

#[test]
fn pdf_garbage_is_a_codec_error() {
    let r = PdfTransform.decode(b"not a pdf".to_vec());
    assert!(matches!(r, Err(PipelineError::Pdf(PdfError::Codec(_)))));
}

#[test]
fn image_stage_round_trips_pixels() {
    let pixels: Vec<u8> = vec![
        1, 2, 3, 4, 250, 249, 248, 247, 10, 20, 30, 40, 99, 98, 97, 96,
    ];
    let png = png_of(2, 2, &pixels);
    let plane = ImageTransform.encode(png).unwrap();
    assert_eq!(&plane[0..4], &[2, 0, 0, 0]);
    assert_eq!(&plane[4..8], &[2, 0, 0, 0]);
    assert_eq!(plane[8], 4);
    assert_eq!(&plane[9..], pixels.as_slice());
    let png2 = ImageTransform.decode(plane).unwrap();
    let round = image::load_from_memory(&png2).unwrap().to_rgba8().into_raw();
    assert_eq!(round, pixels);
}

#[test]
fn image_decode_rejects_bad_planes() {
    // Too short.
    assert!(matches!(
        ImageTransform.decode(vec![1, 2, 3]),
        Err(PipelineError::Image(ImageError::TooShort))
    ));
    // Format byte is not the RGBA marker.
    let mut plane = vec![1, 0, 0, 0, 1, 0, 0, 0, 5];
    plane.extend_from_slice(&[0, 0, 0, 0]);
    assert!(matches!(
        ImageTransform.decode(plane),
        Err(PipelineError::Image(ImageError::UnsupportedFormat))
    ));
    // Length does not match the declared dimensions.
    let mut plane = vec![2, 0, 0, 0, 2, 0, 0, 0, 4];
    plane.extend_from_slice(&[0, 0, 0, 0]);
    assert!(matches!(
        ImageTransform.decode(plane),
        Err(PipelineError::Image(ImageError::LengthMismatch))
    ));
}

#[test]
fn image_decode_rejects_zero_dimension_plane() {
    // A plane declaring 0x0 dimensions passes the length check (9 bytes)
    // but no image container can carry it.
    let plane = vec![0, 0, 0, 0, 0, 0, 0, 0, 4];
    assert!(matches!(
        ImageTransform.decode(plane),
        Err(PipelineError::Image(ImageError::ZeroDimension))
    ));
}

#[test]
fn image_encode_rejects_non_image_input() {
    let r = ImageTransform.encode(b"not an image container".to_vec());
    assert!(matches!(r, Err(PipelineError::Image(ImageError::Codec(_)))));
}

#[test]
fn pdf_key_to_non_stream_is_distinguishable() {
    // The custom key resolves to a dictionary, not a stream.
    let mut doc = lopdf::Document::with_version("1.7");
    let not_a_stream = doc.add_object(lopdf::Dictionary::new());
    let mut info = lopdf::Dictionary::new();
    info.set("WackyPixels", lopdf::Object::Reference(not_a_stream));
    let info_id = doc.add_object(info);
    doc.trailer.set("Info", info_id);
    let mut catalog = lopdf::Dictionary::new();
    catalog.set("Type", "Catalog");
    let catalog_id = doc.add_object(catalog);
    doc.trailer.set("Root", catalog_id);
    let mut bytes: Vec<u8> = Vec::new();
    doc.save_to(&mut Cursor::new(&mut bytes)).unwrap();

    let r = PdfTransform.decode(bytes);
    assert!(matches!(
        r,
        Err(PipelineError::Pdf(PdfError::NotAStream))
    ));
}

#[test]
fn image_data_decode_messages() {
    assert_eq!(image_data::decode(vec![1, 2]).unwrap_err(), "Data too short");
    let mut plane = vec![1, 0, 0, 0, 1, 0, 0, 0, 9];
    plane.extend_from_slice(&[0, 0, 0, 0]);
    assert_eq!(
        image_data::decode(plane).unwrap_err(),
        "Unsupported format, only RGBA supported"
    );
    let plane = vec![1, 0, 0, 0, 1, 0, 0, 0, 4];
    assert_eq!(
        image_data::decode(plane).unwrap_err(),
        "Pixel data length mismatch"
    );
    let mut plane = vec![1, 0, 0, 0, 1, 0, 0, 0, 4];
    plane.extend_from_slice(&[9, 8, 7, 6]);
    let img = image_data::decode(plane).unwrap();
    assert_eq!(img.width, 1);
    assert_eq!(img.height, 1);
    assert_eq!(img.pixels, vec![9, 8, 7, 6]);
}

#[test]
fn default_pipeline_end_to_end() {
    // A 2-by-2 RGBA image with arbitrary pixel values, through the default
    // five-stage pipeline and back: the recovered pixel plane is
    // byte-identical.
    let pixels: Vec<u8> = vec![
        0, 255, 17, 128, 33, 66, 99, 132, 200, 100, 50, 25, 7, 14, 21, 28,
    ];
    let png = png_of(2, 2, &pixels);
    let pipeline = build_default_pipeline();
    let run = pipeline.encode(png).unwrap();
    assert_eq!(run.final_name, "encrypted.wav");
    let back = pipeline.decode(run.output, None).unwrap();
    assert_eq!(back.final_name, "decrypted.png");
    let round = image::load_from_memory(&back.output).unwrap().to_rgba8().into_raw();
    assert_eq!(round, pixels);
}

#[test]
fn custom_pipeline_decodes_in_exact_reverse() {
    let data = b"order matters".to_vec();
    let forward = build_custom_pipeline(&[TransformType::Unicode, TransformType::Gzip]);
    let run = forward.encode(data.clone()).unwrap();
    assert_eq!(run.final_name, "encrypted.gz");
    // The same list decodes by undoing gzip first, then unicode.
    let back = forward.decode(run.output.clone(), None).unwrap();
    assert_eq!(back.output, data);
    // The reversed list would undo unicode first and must fail.
    let wrong_order = build_custom_pipeline(&[TransformType::Gzip, TransformType::Unicode]);
    assert!(wrong_order.decode(run.output, None).is_err());
}

#[test]
fn custom_pipeline_differs_from_default_order() {
    let data = b"not the default order".to_vec();
    let custom = build_custom_pipeline(&[TransformType::Gzip, TransformType::Lzma]);
    let run = custom.encode(data.clone()).unwrap();
    assert_eq!(run.final_name, "encrypted.xz");
    let back = custom.decode(run.output, None).unwrap();
    assert_eq!(back.output, data);
}

#[test]
fn pipeline_persists_named_intermediates() {
    let data = b"snapshots".to_vec();
    let pipeline = build_custom_pipeline(&[TransformType::Unicode, TransformType::Gzip])
        .save_intermediates(true);
    let run = pipeline.encode(data.clone()).unwrap();
    assert_eq!(run.artifacts.len(), 2);
    assert_eq!(run.artifacts[0].0, "001_unicode_encoding.txt");
    assert_eq!(run.artifacts[1].0, "002_gzip_compression.gz");
    assert_eq!(run.artifacts[1].1, run.output);

    let back = pipeline.decode(run.output, None).unwrap();
    assert_eq!(back.artifacts.len(), 2);
    // Counting down, each named with the extension the buffer now has;
    // the terminal step uses the raw-image extension.
    assert_eq!(back.artifacts[0].0, "002_gzip_compression_decoded.txt");
    assert_eq!(back.artifacts[1].0, "001_unicode_encoding_decoded.png");
    assert_eq!(back.artifacts[1].1, data);
}

#[test]
fn pipeline_wraps_failures_with_step_and_name() {
    let pipeline = build_custom_pipeline(&[TransformType::Gzip, TransformType::Lzma]);
    match pipeline.decode(b"not xz data".to_vec(), None) {
        Err(PipelineError::Step { step, name, source }) => {
            assert_eq!(step, 1);
            assert_eq!(name, "LZMA Compression");
            assert!(matches!(*source, PipelineError::Lzma(_)));
        },
        other => panic!("expected a wrapped step failure, got {:?}", other),
    }
}

#[test]
fn pipeline_decode_honors_name_override() {
    let pipeline = build_custom_pipeline(&[TransformType::Gzip]);
    let run = pipeline.encode(b"x".to_vec()).unwrap();
    let back = pipeline
        .decode(run.output, Some(String::from("image.png")))
        .unwrap();
    assert_eq!(back.final_name, "image.png");
}

#[test]
fn transform_dispatch_names_and_extensions() {
    let stages = [
        (Transform::Image(ImageTransform), "PNG serialization", "bin"),
        (Transform::Pdf(PdfTransform), "PDF", "pdf"),
        (Transform::Lzma(LzmaTransform), "LZMA Compression", "xz"),
        (
            Transform::Unicode(UnicodeTransform),
            "Unicode Encoding",
            "txt",
        ),
        (
            Transform::Wav(wackypixels::transforms::wav::WavTransform),
            "WAV Audio",
            "wav",
        ),
        (Transform::Gzip(GzipTransform), "Gzip Compression", "gz"),
    ];
    for (t, name, ext) in stages {
        assert_eq!(t.name(), name);
        assert_eq!(t.extension(), ext);
    }
}

#[test]
fn transform_type_descriptions() {
    assert_eq!(
        TransformType::Image.description(),
        "Image serialization (PNG -> binary)"
    );
    assert_eq!(TransformType::Lzma.description(), "LZMA/XZ compression");
    assert_eq!(
        TransformType::Wav.description(),
        "WAV audio encoding (amplitude modulation)"
    );
}

#[test]
fn empty_pipeline_passes_payload_through() {
    let pipeline = wackypixels::pipeline::Pipeline::new();
    let run = pipeline.encode(b"unchanged".to_vec()).unwrap();
    assert_eq!(run.output, b"unchanged".to_vec());
    assert_eq!(run.final_name, "encrypted.bin");
}
