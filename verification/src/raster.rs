//! Raster decode and resample, through the underlying image library.

use vstd::prelude::*;

verus! {

/// What decoding an image byte stream to RGBA yields: None when the bytes
/// are not a decodable image, otherwise the dimensions and the raw buffer;
/// the result depends on the bytes alone.
pub uninterp spec fn decoded_rgba_of(bytes: Seq<u8>) -> Option<(u32, u32, Seq<u8>)>;

/// Relies on image::load_from_memory, DynamicImage::to_rgba8,
/// ImageBuffer::dimensions and ImageBuffer::into_raw: deterministic decoding
/// of an image to an RGBA buffer of exactly width*height*4 bytes; the error
/// message starts with `Decode failed:` and carries the decoder's own text.
#[verifier::external_body]
pub(crate) fn image_decode_rgba(bytes: &[u8]) -> (r: Result<(u32, u32, Vec<u8>), String>)
    ensures
        r matches Ok(t) ==> decoded_rgba_of(bytes@) == Some((t.0, t.1, t.2@)) && t.2@.len() == t.0
            as int * t.1 as int * 4,
        r is Err ==> decoded_rgba_of(bytes@) is None,
        r matches Err(m) ==> m@.len() >= 14 && m@.subrange(0, 14) == "Decode failed:"@,
{
    match image::load_from_memory(bytes) {
        Ok(img) => {
            let rgba = img.to_rgba8();
            let (w, h) = rgba.dimensions();
            Ok((w, h, rgba.into_raw()))
        },
        Err(e) => Err(format!("Decode failed: {e}")),
    }
}

/// What resampling an RGBA buffer to new dimensions with the Lanczos3 filter
/// yields; the result depends on the arguments alone.
pub uninterp spec fn resized_rgba_of(
    raw: Seq<u8>,
    width: u32,
    height: u32,
    new_width: u32,
    new_height: u32,
) -> Seq<u8>;

/// Relies on image::imageops::resize with the Lanczos3 filter, and on
/// ImageBuffer::from_raw / into_raw: deterministic resampling of an exactly
/// sized RGBA buffer to a buffer of exactly new_width*new_height*4 bytes.
#[verifier::external_body]
pub(crate) fn image_resize_rgba(
    raw: Vec<u8>,
    width: u32,
    height: u32,
    new_width: u32,
    new_height: u32,
) -> (r: Vec<u8>)
    requires
        raw@.len() == width as int * height as int * 4,
        1 <= width,
        1 <= height,
        1 <= new_width,
        1 <= new_height,
        new_width as int * new_height as int * 4 <= usize::MAX as int,
    ensures
        r@ == resized_rgba_of(raw@, width, height, new_width, new_height),
        r@.len() == new_width as int * new_height as int * 4,
{
    match image::RgbaImage::from_raw(width, height, raw) {
        Some(img) => image::imageops::resize(
            &img,
            new_width,
            new_height,
            image::imageops::FilterType::Lanczos3,
        ).into_raw(),
        None => Vec::new(),
    }
}

} // verus!
