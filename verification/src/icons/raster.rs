//! Raster icons: choosing the decoder by the file's extension, decoding the
//! bytes with the `image` crate and scaling them to the row's icon size.
use vstd::prelude::*;
use crate::paths::{extension, extension_of};
use crate::text::{ascii_lower_seq, eq_ignore_ascii_case, eq_ignore_ascii_case_lit, string_of};

verus! {

/// The lower-cased extensions `ImageFormat::from_extension` knows.
pub open spec fn known_image_ext(e: Seq<char>) -> bool {
    e == "avif"@ || e == "jpg"@ || e == "jpeg"@ || e == "jfif"@ || e == "png"@ || e == "apng"@ || e
        == "gif"@ || e == "webp"@ || e == "tif"@ || e == "tiff"@ || e == "tga"@ || e == "dds"@ || e
        == "bmp"@ || e == "ico"@ || e == "hdr"@ || e == "exr"@ || e == "pbm"@ || e == "pam"@ || e
        == "ppm"@ || e == "pgm"@ || e == "pnm"@ || e == "ff"@ || e == "qoi"@
}

/// What `image::load_from_memory_with_format` decodes from `bytes` in the
/// format that `image::ImageFormat::from_extension(ext)` picks, as 8-bit RGBA
/// (`DynamicImage::to_rgba8`): width, height and pixel bytes. `None` when
/// the extension names no format or the bytes do not decode in it.
pub uninterp spec fn decoded(bytes: Seq<u8>, ext: Seq<char>) -> Option<(u32, u32, Seq<u8>)>;

/// Calls `image::ImageFormat::from_extension`, which lower-cases the
/// extension (ASCII) and knows exactly the names listed in
/// `known_image_ext`; then `image::load_from_memory_with_format` in that
/// format, whose error becomes `None`; then `DynamicImage::to_rgba8`, handing
/// back the width, height and bytes of the RGBA buffer
/// (`ImageBuffer::dimensions`, `ImageBuffer::into_raw`). The result is named
/// `decoded`. An RGBA buffer holds at least four bytes per pixel.
#[verifier::external_body]
fn decode_rgba(bytes: &[u8], ext: &str) -> (r: Option<(u32, u32, Vec<u8>)>)
    ensures
        match r {
            Some((w, h, raw)) => decoded(bytes@, ext@) == Some((w, h, raw@)) && raw@.len() >= w * h * 4,
            None => decoded(bytes@, ext@) is None,
        },
        !known_image_ext(ascii_lower_seq(ext@)) ==> r is None,
{
    let format = image::ImageFormat::from_extension(ext)?;
    match image::load_from_memory_with_format(bytes, format) {
        Ok(img) => {
            let buf = img.to_rgba8();
            let (w, h) = buf.dimensions();
            Some((w, h, buf.into_raw()))
        },
        Err(_) => None,
    }
}

/// The pixels `image::imageops::resize` computes, with the triangle filter,
/// from an RGBA image of the given width, height and bytes, at `size` by
/// `size` pixels.
pub uninterp spec fn resized(w: u32, h: u32, raw: Seq<u8>, size: u32) -> Seq<u8>;

/// Calls `image::imageops::resize` with the triangle filter on the RGBA
/// image of the given width, height and bytes (rebuilt with
/// `ImageBuffer::from_raw`, which accepts at least four bytes per pixel) and
/// hands back the result's bytes, named `resized`. Every path of `resize` returns a buffer of
/// exactly `size` by `size` pixels, so the bytes are `size * size` RGBA
/// quadruples. Sizes are bounded so that the buffer's length cannot
/// overflow (`ImageBuffer` panics then).
#[verifier::external_body]
fn resize_rgba(w: u32, h: u32, raw: Vec<u8>, size: u32) -> (r: Vec<u8>)
    requires
        raw@.len() >= w * h * 4,
        size <= 4096,
    ensures
        r@ == resized(w, h, raw@, size),
        r@.len() == size * size * 4,
{
    let buf = image::ImageBuffer::<image::Rgba<u8>, Vec<u8>>::from_raw(w, h, raw).unwrap();
    image::imageops::resize(&buf, size, size, image::imageops::FilterType::Triangle).into_raw()
}

/// Whether a path names an SVG file: its extension, in any case, is `svg`.
pub open spec fn svg_path(path: Seq<char>) -> bool {
    match extension(path) {
        Some(e) => eq_ignore_ascii_case(e, "svg"@),
        None => false,
    }
}

pub fn is_svg_path(path: &str) -> (r: bool)
    ensures
        r == svg_path(path@),
{
    match extension_of(&crate::text::chars_of(path)) {
        Some(e) => eq_ignore_ascii_case_lit(&e, "svg"),
        None => false,
    }
}

/// The bytes of a `size` by `size` RGBA pixel buffer, or `None` when `src`
/// has another length.
pub fn buffer_from_bytes(src: Vec<u8>, size: u32) -> (r: Option<Vec<u8>>)
    requires
        size <= 4096,
    ensures
        r == (if src@.len() == size * size * 4 {
            Some(src)
        } else {
            None
        }),
{
    let sz = size as u64;
    assert(sz * sz <= 4096 * 4096) by (nonlinear_arith)
        requires
            sz <= 4096,
    ;
    let want = sz * sz * 4;
    if src.len() as u64 == want {
        Some(src)
    } else {
        None
    }
}

/// The pixels of the raster icon at `path` holding `bytes`, scaled to
/// `size` by `size`: decoded in the format its extension names, then
/// resized; `None` without an extension or when the bytes do not decode.
pub open spec fn raster_pixels(path: Seq<char>, bytes: Seq<u8>, size: u32) -> Option<Seq<u8>> {
    match extension(path) {
        Some(e) => match decoded(bytes, e) {
            Some((w, h, raw)) => Some(resized(w, h, raw, size)),
            None => None,
        },
        None => None,
    }
}

/// Decodes the bytes of the raster icon at `path` as the format its
/// extension names and scales them to `size` by `size` RGBA pixels. A path
/// without a known image extension gives `None`; so do bytes that do not
/// decode.
pub fn decode_raster(path: &str, bytes: &[u8], size: u32) -> (r: Option<Vec<u8>>)
    requires
        size <= 4096,
    ensures
        match r {
            Some(px) => raster_pixels(path@, bytes@, size) == Some(px@) && px@.len() == size * size * 4,
            None => raster_pixels(path@, bytes@, size) is None,
        },
        match extension(path@) {
            Some(e) => !known_image_ext(ascii_lower_seq(e)) ==> r is None,
            None => r is None,
        },
{
    let ext = match extension_of(&crate::text::chars_of(path)) {
        Some(e) => string_of(&e),
        None => return None,
    };
    match decode_rgba(bytes, ext.as_str()) {
        Some((w, h, raw)) => {
            let px = resize_rgba(w, h, raw, size);
            buffer_from_bytes(px, size)
        },
        None => None,
    }
}

} // verus!
