//! Canvas compositing: one scaled, centered, alpha-padded square canvas
//! per requested size, compressed into a self-contained payload.
//!
//! The pixel work itself — decoding, resampling, source-over blending,
//! payload encoding — is done by the `image` crate behind trusted
//! wrappers; the size checks and the centering arithmetic around those
//! calls are verified.

use vstd::prelude::*;
use crate::error::IcoError;

verus! {

/// `image::DynamicImage`, carried opaquely through the pipeline.
#[verifier::external_type_specification]
#[verifier::external_body]
pub struct ExDynamicImage(image::DynamicImage);

/// Whether a rendition of this size can be produced: positive, and
/// small enough that the canvas's RGBA byte count, 4·size², fits the
/// allocator's `usize` arithmetic.
pub open spec fn valid_canvas_size(size: u32) -> bool {
    1 <= size && 4 * ((size as int) * (size as int)) <= usize::MAX as int
}

/// Decides `valid_canvas_size` for a concrete size.
pub fn is_valid_canvas_size(size: u32) -> (r: bool)
    ensures
        r == valid_canvas_size(size),
{
    let s = size as u128;
    assert(s * s <= 0xFFFF_FFFFu128 * 0xFFFF_FFFFu128) by (nonlinear_arith)
        requires
            s <= 0xFFFF_FFFFu128,
    ;
    size >= 1 && 4 * (s * s) <= usize::MAX as u128
}

/// Whether a buffer decodes as a supported image under the decoder's
/// static signature table, built-in codecs and default limits.  On that
/// path the outcome is a function of the bytes alone.
pub uninterp spec fn decodes(buffer: Seq<u8>) -> bool;

/// Relies on `image::guess_format` and
/// `image::load_from_memory_with_format`: the format is guessed from
/// the crate's static signature table and the buffer is decoded by the
/// matching built-in codec under the default decoding limits.  Unlike
/// `load_from_memory`, this path never consults the crate's process-
/// global format-detection or decoding hook registries, so whether the
/// bytes decode depends on the bytes alone.  On malformed or
/// unsupported input the decoder's diagnostic message is returned
/// instead; its wording is passed through but not specified, as some
/// codecs decode in parallel and may surface a different failure first.
#[verifier::external_body]
pub(crate) fn decode_image(buffer: &[u8]) -> (r: Result<image::DynamicImage, String>)
    ensures
        r is Ok <==> decodes(buffer@),
{
    match image::guess_format(buffer) {
        Ok(format) => {
            image::load_from_memory_with_format(buffer, format).map_err(|e| format!("{}", e))
        }
        Err(e) => Err(format!("{}", e)),
    }
}

/// Relies on `DynamicImage::resize` with the Lanczos filter, and on the
/// dimension accessors for the result: the resampled image preserves
/// the source's aspect ratio and is the largest fit within a
/// `size`×`size` box, so both returned dimensions lie in `1..=size`.
#[verifier::external_body]
fn resize_to_fit(img: &image::DynamicImage, size: u32) -> (r: (image::DynamicImage, u32, u32))
    requires
        valid_canvas_size(size),
    ensures
        1 <= r.1 <= size,
        1 <= r.2 <= size,
{
    let scaled = img.resize(size, size, image::imageops::FilterType::Lanczos3);
    let width = scaled.width();
    let height = scaled.height();
    (scaled, width, height)
}

/// Relies on `DynamicImage::new_rgba8`: a fresh size×size RGBA canvas
/// with every pixel zeroed, i.e. fully transparent.  The size bound
/// keeps `ImageBuffer::new`'s byte-count arithmetic from overflowing.
#[verifier::external_body]
fn new_canvas(size: u32) -> image::DynamicImage
    requires
        valid_canvas_size(size),
{
    image::DynamicImage::new_rgba8(size, size)
}

/// Relies on `image::imageops::overlay`: source-over alpha composition
/// of `top` onto `bottom` at the given coordinates, clipped to the
/// canvas bounds; canvas pixels it does not cover keep their value.
#[verifier::external_body]
fn overlay_at(bottom: &mut image::DynamicImage, top: &image::DynamicImage, x: i64, y: i64) {
    image::imageops::overlay(bottom, top, x, y);
}

/// Relies on `DynamicImage::write_to` with the PNG format: encodes the
/// canvas into one self-contained compressed payload in memory; on
/// failure it returns the encoder's diagnostic message instead.
#[verifier::external_body]
fn encode_png(img: &image::DynamicImage) -> Result<Vec<u8>, String> {
    let mut cursor = std::io::Cursor::new(Vec::new());
    match img.write_to(&mut cursor, image::ImageFormat::Png) {
        Ok(()) => Ok(cursor.into_inner()),
        Err(e) => Err(format!("{}", e)),
    }
}

/// The centering offset of a scaled dimension on the canvas: half the
/// unused span, rounded down.
pub open spec fn center_offset_spec(size: u32, scaled: u32) -> int {
    (size - scaled) / 2
}

/// Where a scaled dimension starts on the canvas.  When the unused span
/// is odd, rounding down puts the extra pixel of asymmetry on the
/// left or top side.
pub fn center_offset(size: u32, scaled: u32) -> (r: u32)
    requires
        scaled <= size,
    ensures
        r == center_offset_spec(size, scaled),
{
    (size - scaled) / 2
}

/// Centering symmetry: a scaled image that fills the canvas along an
/// axis gets offset zero there — so a square rendition, which fills
/// both axes, is not shifted at all; equal scaled dimensions get equal
/// offsets; and of two axes the shorter scaled dimension gets the
/// larger offset.
pub proof fn lemma_centering(size: u32, w: u32, h: u32)
    requires
        w <= size,
        h <= size,
    ensures
        w == size ==> center_offset_spec(size, w) == 0,
        w == h ==> center_offset_spec(size, w) == center_offset_spec(size, h),
        w <= h ==> center_offset_spec(size, w) >= center_offset_spec(size, h),
{
}

/// Renders one rendition: scales the source to fit a size×size box
/// while preserving its aspect ratio, centers it on a fresh transparent
/// canvas, and encodes the canvas as one compressed payload.  A size
/// for which no canvas can be made is rejected as `InvalidSize` before
/// anything is allocated; an encoder failure is passed through as
/// `EncodingFailure`; nothing else can fail.
pub fn compose(img: &image::DynamicImage, size: u32) -> (r: Result<Vec<u8>, IcoError>)
    ensures
        !valid_canvas_size(size) ==> (r matches Err(e) && e matches IcoError::InvalidSize {
            size: s,
        } && s == size),
        valid_canvas_size(size) ==> (r is Ok || (r matches Err(e)
            && e is EncodingFailure)),
{
    if !is_valid_canvas_size(size) {
        return Err(IcoError::InvalidSize { size });
    }
    let (scaled, width, height) = resize_to_fit(img, size);
    let x = center_offset(size, width);
    let y = center_offset(size, height);
    let mut canvas = new_canvas(size);
    overlay_at(&mut canvas, &scaled, x as i64, y as i64);
    match encode_png(&canvas) {
        Ok(payload) => Ok(payload),
        Err(message) => Err(IcoError::EncodingFailure { message }),
    }
}

} // verus!
