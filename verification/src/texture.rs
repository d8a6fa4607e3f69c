//! Images for textures: decoding PNG files (such as the pages of a bitmap
//! font) into tightly packed 8-bit RGBA pixels.

use vstd::prelude::*;

verus! {

/// What the `image` crate's built-in PNG decoder makes of `bytes`, converted
/// to 8-bit RGBA: the width, the height and the pixel bytes, or nothing when
/// `bytes` is not a PNG image it can decode.
pub uninterp spec fn decoded_png_rgba8(bytes: Seq<u8>) -> Option<(u32, u32, Seq<u8>)>;

/// An image of `width` by `height` pixels, four bytes (red, green, blue,
/// alpha) per pixel, row by row.
pub struct Image {
    pub width: u32,
    pub height: u32,
    pub pixels: Vec<u8>,
}

/// An optional image, by its values.
pub open spec fn image_view(r: Option<Image>) -> Option<(u32, u32, Seq<u8>)> {
    match r {
        Some(i) => Some((i.width, i.height, i.pixels@)),
        None => None,
    }
}

/// The pixel bytes are exactly as many as an image of that size holds.
pub open spec fn well_sized(width: u32, height: u32, pixels: Seq<u8>) -> bool {
    pixels.len() == width * height * 4
}

/// Decodes PNG data with `image::load_from_memory_with_format` (format
/// `ImageFormat::Png`) and converts it with `DynamicImage::to_rgba8`, taking
/// the width, height and pixel bytes of the result. The contract says only
/// that the result is what [`decoded_png_rgba8`] names for these bytes: with
/// the format given, the crate decodes with its own PNG decoder and default
/// limits, and consults none of the format or decoding hooks that can be
/// registered at run time, so the result depends on the bytes alone.
#[verifier::external_body]
fn load_png_rgba8(bytes: &[u8]) -> (r: Option<Image>)
    ensures
        image_view(r) == decoded_png_rgba8(bytes@),
{
    match image::load_from_memory_with_format(bytes, image::ImageFormat::Png) {
        Ok(decoded) => {
            let rgba = decoded.to_rgba8();
            Some(Image { width: rgba.width(), height: rgba.height(), pixels: rgba.into_raw() })
        },
        Err(_) => None,
    }
}

/// An image of the given size with the given pixels, if there are exactly
/// as many pixel bytes as that size holds.
pub fn image_from_pixels(width: u32, height: u32, pixels: Vec<u8>) -> (r: Option<Image>)
    ensures
        image_view(r) == if well_sized(width, height, pixels@) {
            Some((width, height, pixels@))
        } else {
            None::<(u32, u32, Seq<u8>)>
        },
{
    let w = width as u128;
    let h = height as u128;
    assert(w * h <= 0xffff_ffff * 0xffff_ffff) by (nonlinear_arith)
        requires
            w <= 0xffff_ffff,
            h <= 0xffff_ffff,
    ;
    let expected: u128 = w * h * 4;
    if pixels.len() as u128 == expected {
        Some(Image { width, height, pixels })
    } else {
        None
    }
}

/// What [`decode_rgba8`] returns for `bytes`.
pub open spec fn spec_decode_rgba8(bytes: Seq<u8>) -> Option<(u32, u32, Seq<u8>)> {
    match decoded_png_rgba8(bytes) {
        Some((w, h, p)) => if well_sized(w, h, p) {
            Some((w, h, p))
        } else {
            None
        },
        None => None,
    }
}

/// Decodes a PNG file into RGBA pixels; nothing when it cannot be decoded,
/// or when the decoder hands back another number of pixel bytes than the
/// image's size holds.
pub fn decode_rgba8(bytes: &[u8]) -> (r: Option<Image>)
    ensures
        image_view(r) == spec_decode_rgba8(bytes@),
        r matches Some(i) ==> well_sized(i.width, i.height, i.pixels@),
{
    match load_png_rgba8(bytes) {
        Some(decoded) => image_from_pixels(decoded.width, decoded.height, decoded.pixels),
        None => None,
    }
}

} // verus!
