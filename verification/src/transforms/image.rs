//! The raw-image stage: unwraps an image container to a raw RGBA plane
//! prefixed by a 9-byte header, and wraps such a plane back into a PNG
//! container.  The header holds width and height as 32-bit little-endian
//! values followed by the format byte 4 (RGBA).  The header logic is the
//! stage's own and is verified; the container work is the image codec's.
use crate::error::{ImageError, PipelineError};
use vstd::prelude::*;

verus! {

/// What the image codec reads out of a container: its width, height and
/// raw RGBA plane, or nothing for a buffer it cannot parse.  Parsing is a
/// pure function of the bytes, so its result can be named.
pub uninterp spec fn png_pixels(bytes: Seq<u8>) -> Option<(u32, u32, Seq<u8>)>;

/// The four little-endian bytes of a 32-bit value.
pub open spec fn le32_bytes(v: u32) -> Seq<u8> {
    seq![
        (v & 0xFF) as u8,
        ((v >> 8u32) & 0xFF) as u8,
        ((v >> 16u32) & 0xFF) as u8,
        ((v >> 24u32) & 0xFF) as u8,
    ]
}

/// The 32-bit value of four little-endian bytes.
pub open spec fn le32_value(b: Seq<u8>) -> u32
    recommends
        b.len() == 4,
{
    (b[0] as u32) | ((b[1] as u32) << 8u32) | ((b[2] as u32) << 16u32) | ((b[3] as u32) << 24u32)
}

/// The serialized plane of an image: width, height, the RGBA format byte,
/// then the pixel bytes.
pub open spec fn plane_bytes(w: u32, h: u32, pixels: Seq<u8>) -> Seq<u8> {
    le32_bytes(w) + le32_bytes(h) + seq![4u8] + pixels
}

/// What a serialized plane parses to, or `None` when it must be rejected:
/// too short for the header, a format byte other than 4, or a length that
/// does not match the dimensions.
pub open spec fn plane_parse(data: Seq<u8>) -> Option<(u32, u32, Seq<u8>)> {
    if data.len() < 9 {
        Option::None
    } else {
        let w = le32_value(data.take(4));
        let h = le32_value(data.subrange(4, 8));
        if data[8] != 4 {
            Option::None
        } else if data.len() != 9 + 4 * w * h {
            Option::None
        } else {
            Option::Some((w, h, data.skip(9)))
        }
    }
}

/// Serializing a plane and parsing it back recovers the dimensions and
/// pixels, as long as the pixel count matches the dimensions.
pub proof fn lemma_plane_round_trip(w: u32, h: u32, pixels: Seq<u8>)
    requires
        pixels.len() == 4 * w * h,
    ensures
        plane_parse(plane_bytes(w, h, pixels)) == Some((w, h, pixels)),
{
    let data = plane_bytes(w, h, pixels);
    assert(data.len() == 9 + pixels.len());
    assert(data.take(4) =~= le32_bytes(w));
    assert(data.subrange(4, 8) =~= le32_bytes(h));
    lemma_le32_round_trip(w);
    lemma_le32_round_trip(h);
    assert(data[8] == 4);
    assert(data.skip(9) =~= pixels);
}

/// Reading the four little-endian bytes of a value back gives the value.
proof fn lemma_le32_round_trip(v: u32)
    ensures
        le32_value(le32_bytes(v)) == v,
{
    let b0 = (v & 0xFF) as u8;
    let b1 = ((v >> 8u32) & 0xFF) as u8;
    let b2 = ((v >> 16u32) & 0xFF) as u8;
    let b3 = ((v >> 24u32) & 0xFF) as u8;
    assert((b0 as u32) | ((b1 as u32) << 8u32) | ((b2 as u32) << 16u32) | ((b3 as u32) << 24u32)
        == v) by (bit_vector)
        requires
            b0 == (v & 0xFF) as u8,
            b1 == ((v >> 8u32) & 0xFF) as u8,
            b2 == ((v >> 16u32) & 0xFF) as u8,
            b3 == ((v >> 24u32) & 0xFF) as u8,
    ;
}

/// Relies on the image crate's ImageReader and DynamicImage: decoding a
/// container yields its dimensions and its RGBA plane of exactly
/// 4·width·height bytes.
#[verifier::external_body]
pub(crate) fn png_decode_raw(data: &[u8]) -> (r: Result<(u32, u32, Vec<u8>), String>)
    ensures
        match png_pixels(data@) {
            Some(t) => r matches Ok(o) && o.0 == t.0 && o.1 == t.1 && o.2@ == t.2,
            None => r is Err,
        },
        r matches Ok(o) ==> o.2@.len() == 4 * o.0 * o.1,
{
    let img = image::ImageReader::new(std::io::Cursor::new(data)).with_guessed_format().map_err(
        |e| e.to_string(),
    )?.decode().map_err(|e| e.to_string())?;
    let (w, h) = image::GenericImageView::dimensions(&img);
    Ok((w, h, img.to_rgba8().into_raw()))
}

/// Relies on the image crate's PNG encoder: writing a nonzero-dimension
/// RGBA plane to an in-memory buffer cannot fail, and PNG is lossless, so
/// decoding the written container recovers exactly the dimensions and
/// RGBA plane given to it.  The plane is bounded to a quarter of a
/// gibibyte so that reading it back stays within the reader's default
/// half-gibibyte allocation limit, which `png_pixels` carries.
#[verifier::external_body]
pub(crate) fn png_encode_raw(width: u32, height: u32, pixels: Vec<u8>) -> (r: Result<
    Vec<u8>,
    String,
>)
    requires
        pixels@.len() == 4 * width * height,
        width > 0,
        height > 0,
        pixels@.len() <= 0x1000_0000,
    ensures
        r is Ok,
        r matches Ok(out) ==> png_pixels(out@) == Some((width, height, pixels@)),
{
    let img: image::ImageBuffer<image::Rgba<u8>, Vec<u8>> = match image::ImageBuffer::from_raw(
        width,
        height,
        pixels,
    ) {
        Some(b) => b,
        None => {
            return Err("failed to construct image buffer".to_string());
        },
    };
    let mut out: Vec<u8> = Vec::new();
    img.write_to(&mut std::io::Cursor::new(&mut out), image::ImageFormat::Png).map_err(
        |e| e.to_string(),
    )?;
    Ok(out)
}

/// The raw-image stage.
#[derive(Debug)]
pub struct ImageTransform;

impl ImageTransform {
    /// Decodes an image container and serializes its RGBA plane behind the
    /// 9-byte dimensions header.
    pub fn encode(&self, data: Vec<u8>) -> (r: Result<Vec<u8>, PipelineError>)
        ensures
            match png_pixels(data@) {
                Some(t) => r matches Ok(out) && out@ == plane_bytes(t.0, t.1, t.2) && t.2.len()
                    == 4 * t.0 * t.1 && out@.len() == 9 + 4 * t.0 * t.1,
                None => r matches Err(e) && e matches PipelineError::Image(_),
            },
    {
        let (w, h, pixels) = match png_decode_raw(data.as_slice()) {
            Ok(t) => t,
            Err(m) => {
                return Err(PipelineError::Image(ImageError::Codec(m)));
            },
        };
        let mut out: Vec<u8> = Vec::new();
        push_le32(&mut out, w);
        push_le32(&mut out, h);
        out.push(4);
        let mut pixels = pixels;
        let ghost pix = pixels@;
        out.append(&mut pixels);
        proof {
            assert(out@ =~= plane_bytes(w, h, pix));
        }
        Ok(out)
    }

    /// Validates the 9-byte plane header and re-encodes the RGBA plane as
    /// a PNG container.  Rejects a buffer that is too short, whose format
    /// byte is not 4, or whose length does not match its dimensions; a
    /// well-formed plane with nonzero dimensions within the supported
    /// size always re-encodes.
    pub fn decode(&self, data: Vec<u8>) -> (r: Result<Vec<u8>, PipelineError>)
        ensures
            plane_parse(data@) is None ==> (r matches Err(e) && e matches PipelineError::Image(_)),
            plane_parse(data@) matches Some(t) ==> ((r matches Ok(out) ==> png_pixels(out@)
                == Some(t)) && (r matches Err(e) ==> e matches PipelineError::Image(_))),
            plane_parse(data@) matches Some(t) ==> (t.0 > 0 && t.1 > 0 && t.2.len() <= 0x1000_0000
                ==> r is Ok),
            plane_parse(data@) matches Some(t) ==> ((t.0 == 0 || t.1 == 0) ==> r == Err::<
                Vec<u8>,
                PipelineError,
            >(PipelineError::Image(ImageError::ZeroDimension))),
            plane_parse(data@) matches Some(t) ==> (t.0 > 0 && t.1 > 0 && t.2.len() > 0x1000_0000
                ==> r == Err::<Vec<u8>, PipelineError>(
                PipelineError::Image(ImageError::PlaneTooLarge),
            )),
            data@.len() >= 9 && data@[8] != 4 ==> r is Err,
            data@.len() >= 9 && data@.len() != 9 + 4 * (le32_value(data@.take(4)) as int) * (
            le32_value(data@.subrange(4, 8)) as int) ==> r is Err,
    {
        let parsed = parse_plane(&data);
        let (w, h, start) = match parsed {
            Ok(t) => t,
            Err(e) => {
                return Err(PipelineError::Image(e));
            },
        };
        if w == 0 || h == 0 {
            return Err(PipelineError::Image(ImageError::ZeroDimension));
        }
        if data.len() - 9 > 0x1000_0000 {
            return Err(PipelineError::Image(ImageError::PlaneTooLarge));
        }
        let mut pixels: Vec<u8> = Vec::new();
        let mut i: usize = start;
        while i < data.len()
            invariant
                start <= i <= data@.len(),
                pixels@ == data@.subrange(start as int, i as int),
            decreases data@.len() - i,
        {
            let b = data[i];
            proof {
                assert(data@.subrange(start as int, i as int + 1) =~= data@.subrange(
                    start as int,
                    i as int,
                ).push(b));
            }
            pixels.push(b);
            i = i + 1;
        }
        proof {
            assert(pixels@ =~= data@.skip(9));
        }
        let encoded = png_encode_raw(w, h, pixels);
        proof {
            assert(encoded is Ok);
        }
        match encoded {
            Ok(out) => Ok(out),
            Err(m) => Err(PipelineError::Image(ImageError::Codec(m))),
        }
    }

    /// The stage's display name.
    pub fn name(&self) -> (r: &'static str)
        ensures
            r@ == "PNG serialization"@,
    {
        "PNG serialization"
    }

    /// The stage's file extension for intermediate artifacts.
    pub fn extension(&self) -> (r: &'static str)
        ensures
            r@ == "bin"@,
    {
        "bin"
    }
}

/// Appends a 32-bit value as four little-endian bytes.
fn push_le32(out: &mut Vec<u8>, v: u32)
    ensures
        final(out)@ == old(out)@ + le32_bytes(v),
{
    let ghost orig = out@;
    out.push((v & 0xFF) as u8);
    out.push(((v >> 8u32) & 0xFF) as u8);
    out.push(((v >> 16u32) & 0xFF) as u8);
    out.push(((v >> 24u32) & 0xFF) as u8);
    proof {
        assert(out@ =~= orig + le32_bytes(v));
    }
}

/// Validates the plane header of a buffer: its dimensions and the offset
/// where the pixel bytes start, or the reason it is rejected.
pub(crate) fn parse_plane(data: &Vec<u8>) -> (r: Result<(u32, u32, usize), ImageError>)
    ensures
        match plane_parse(data@) {
            Some(t) => r matches Ok(o) && o.0 == t.0 && o.1 == t.1 && o.2 == 9 && data@.skip(9)
                == t.2,
            None => r is Err,
        },
        r matches Err(e) ==> plane_parse(data@) is None,
        data@.len() < 9 ==> r == Err::<(u32, u32, usize), ImageError>(ImageError::TooShort),
        data@.len() >= 9 && data@[8] != 4 ==> r == Err::<(u32, u32, usize), ImageError>(
            ImageError::UnsupportedFormat,
        ),
        data@.len() >= 9 && data@[8] == 4 && data@.len() != 9 + 4 * (le32_value(
            data@.take(4),
        ) as int) * (le32_value(data@.subrange(4, 8)) as int) ==> r == Err::<
            (u32, u32, usize),
            ImageError,
        >(ImageError::LengthMismatch),
{
    if data.len() < 9 {
        return Err(ImageError::TooShort);
    }
    let w = read_le32(data, 0);
    let h = read_le32(data, 4);
    proof {
        assert(data@.subrange(0, 4) =~= data@.take(4));
    }
    if data[8] != 4 {
        return Err(ImageError::UnsupportedFormat);
    }
    // The expected length 9 + 4·w·h can exceed both usize and 64 bits, so
    // compare in 128-bit arithmetic.
    proof {
        assert(4 * (w as int) * (h as int) <= 4 * 0xFFFF_FFFFint * 0xFFFF_FFFFint)
            by (nonlinear_arith)
            requires
                w <= 0xFFFF_FFFFu32,
                h <= 0xFFFF_FFFFu32,
        ;
    }
    let expected: u128 = 9 + 4 * (w as u128) * (h as u128);
    if (data.len() as u128) != expected {
        return Err(ImageError::LengthMismatch);
    }
    Ok((w, h, 9))
}

/// Reads a 32-bit little-endian value at `offset`.
fn read_le32(data: &Vec<u8>, offset: usize) -> (r: u32)
    requires
        offset + 4 <= data@.len(),
    ensures
        r == le32_value(data@.subrange(offset as int, offset as int + 4)),
{
    let n = data.len();
    let o1 = offset + 1;
    let o2 = offset + 2;
    let o3 = offset + 3;
    let r = (data[offset] as u32) | ((data[o1] as u32) << 8u32) | ((data[o2] as u32) << 16u32) | (
    (data[o3] as u32) << 24u32);
    proof {
        let b = data@.subrange(offset as int, offset as int + 4);
        assert(b[0] == data@[offset as int] && b[1] == data@[offset as int + 1] && b[2] == data@[
            offset as int + 2] && b[3] == data@[offset as int + 3]);
    }
    r
}

} // verus!
