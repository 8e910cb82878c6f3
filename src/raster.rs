//! Decoding of raster image bytes into 8-bit RGBA pixels.

use vstd::prelude::*;
use crate::tree::RasterFormat;

verus! {

/// Pixels in rows from the top, four bytes each: red, green, blue, alpha.
#[derive(Clone, Debug, PartialEq)]
pub struct RasterImage {
    pub width: u32,
    pub height: u32,
    pub pixels: Vec<u8>,
}

impl View for RasterImage {
    type V = (u32, u32, Seq<u8>);

    open spec fn view(&self) -> (u32, u32, Seq<u8>) {
        (self.width, self.height, self.pixels@)
    }
}

/// Width, height and RGBA pixels of `bytes` decoded as `format`; none where
/// they do not decode.
pub uninterp spec fn decoded_rgba(format: RasterFormat, bytes: Seq<u8>) -> Option<(u32, u32, Seq<u8>)>;

/// Relies on `image::load_from_memory_with_format`, whose result is then
/// converted to 8-bit RGBA (`DynamicImage::into_rgba8`): the result depends
/// on the format and the bytes alone, and an error means the bytes do not
/// decode.
#[verifier::external_body]
pub(crate) fn decode_rgba(format: RasterFormat, bytes: &Vec<u8>) -> (r: Option<RasterImage>)
    ensures
        match r {
            None => decoded_rgba(format, bytes@) is None,
            Some(img) => decoded_rgba(format, bytes@) == Some((img.width, img.height, img.pixels@)),
        },
{
    let f = match format {
        RasterFormat::Jpeg => image::ImageFormat::Jpeg,
        RasterFormat::Png => image::ImageFormat::Png,
        RasterFormat::Gif => image::ImageFormat::Gif,
        RasterFormat::Webp => image::ImageFormat::WebP,
    };
    match image::load_from_memory_with_format(bytes, f) {
        Ok(decoded) => {
            let rgba = decoded.into_rgba8();
            let (width, height) = rgba.dimensions();
            Some(RasterImage { width, height, pixels: rgba.into_raw() })
        },
        Err(_) => None,
    }
}

} // verus!
