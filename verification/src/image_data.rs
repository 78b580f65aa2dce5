//! Deserializes a raw RGBA plane into an image value: the verified
//! counterpart of the raw-image stage's decode direction, exposed on its
//! own for callers that want the pixels rather than a re-encoded
//! container.
use crate::error::ImageError;
use crate::transforms::image::{le32_value, plane_parse};
use vstd::prelude::*;
use vstd::string::StringExecFns;

verus! {

/// A decoded RGBA image: its dimensions and its raw pixel plane, 4 bytes
/// per pixel.
#[derive(Debug)]
pub struct RawImage {
    pub width: u32,
    pub height: u32,
    pub pixels: Vec<u8>,
}

impl RawImage {
    /// The pixel plane holds exactly 4 bytes for each of width·height
    /// pixels.
    pub open spec fn well_formed(self) -> bool {
        self.pixels@.len() == 4 * self.width * self.height
    }
}

/// Parses a serialized plane into an image value.  Rejects, with the
/// stated message, a buffer that is too short, carries a format byte
/// other than the RGBA marker 4, or whose length does not match its
/// dimensions.
pub fn decode(data: Vec<u8>) -> (r: Result<RawImage, String>)
    ensures
        match plane_parse(data@) {
            Some(t) => r matches Ok(img) && img.width == t.0 && img.height == t.1 && img.pixels@
                == t.2 && img.well_formed(),
            None => r is Err,
        },
        data@.len() < 9 ==> (r matches Err(m) && m@ == "Data too short"@),
        data@.len() >= 9 && data@[8] != 4 ==> (r matches Err(m) && m@
            == "Unsupported format, only RGBA supported"@),
        data@.len() >= 9 && data@[8] == 4 && data@.len() != 9 + 4 * (le32_value(
            data@.take(4),
        ) as int) * (le32_value(data@.subrange(4, 8)) as int) ==> (r matches Err(m) && m@
            == "Pixel data length mismatch"@),
{
    let (w, h, start) = match crate::transforms::image::parse_plane(&data) {
        Ok(t) => t,
        Err(ImageError::TooShort) => {
            return Err(String::from_str("Data too short"));
        },
        Err(ImageError::UnsupportedFormat) => {
            return Err(String::from_str("Unsupported format, only RGBA supported"));
        },
        Err(_) => {
            return Err(String::from_str("Pixel data length mismatch"));
        },
    };
    let mut pixels: Vec<u8> = Vec::new();
    let mut i: usize = start;
    while i < data.len()
        invariant
            start <= i <= data@.len(),
            pixels@ == data@.subrange(start as int, i as int),
        decreases data@.len() - i,
    {
        let b = data[i];
        proof {
            assert(data@.subrange(start as int, i as int + 1) =~= data@.subrange(
                start as int,
                i as int,
            ).push(b));
        }
        pixels.push(b);
        i = i + 1;
    }
    proof {
        assert(pixels@ =~= data@.skip(9));
    }
    Ok(RawImage { width: w, height: h, pixels })
}

} // verus!
