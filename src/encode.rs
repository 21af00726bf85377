//! Encoding of a finished gray-scale buffer as a PNG image, in memory.

use vstd::prelude::*;

verus! {

#[verifier::external_type_specification]
#[verifier::external_body]
pub struct ExImageError(image::ImageError);

/// The PNG file that the `image` crate writes for an 8-bit gray-scale image
/// of `width` by `height` pixels.
pub uninterp spec fn png_gray8(pixels: Seq<u8>, width: u32, height: u32) -> Seq<u8>;

/// Relies on `image::codecs::png::PngEncoder::write_image` with
/// `ExtendedColorType::L8`, writing into a `Vec<u8>`: the bytes depend on the
/// pixels and the dimensions alone. It panics unless the buffer holds
/// `width * height` bytes; the `png` encoder below it refuses a zero width
/// or height, and writing into a `Vec` never fails.
#[verifier::external_body]
fn write_png_gray8(pixels: &[u8], width: u32, height: u32) -> (r: Result<Vec<u8>, image::ImageError>)
    requires
        pixels@.len() == width * height,
    ensures
        r matches Ok(bytes) ==> bytes@ == png_gray8(pixels@, width, height),
        width > 0 && height > 0 ==> r is Ok,
        r is Ok ==> width > 0 && height > 0,
{
    let mut out: Vec<u8> = Vec::new();
    let encoder = image::codecs::png::PngEncoder::new(&mut out);
    let written = image::ImageEncoder::write_image(encoder, pixels, width, height, image::ExtendedColorType::L8);
    written.map(|()| out)
}

/// Why a buffer could not be encoded.
pub enum EncodeError {
    /// The buffer does not hold `width * height` bytes.
    SizeMismatch,
    /// A dimension does not fit the 32 bits of a PNG header.
    TooLarge,
    /// The encoder refused the image, as it does one with a zero width or
    /// height; its own error is kept.
    Image(image::ImageError),
}

/// Encodes a row-major buffer of `bounds.0` by `bounds.1` gray levels as a
/// PNG file. A buffer of `width * height` bytes whose dimensions are nonzero
/// and fit in 32 bits is always encoded; the encoder's own error comes back
/// as `EncodeError::Image`.
pub fn encode_image(pixels: &[u8], bounds: (usize, usize)) -> (r: Result<Vec<u8>, EncodeError>)
    ensures
        r matches Err(EncodeError::SizeMismatch) <==> pixels@.len() != bounds.0 * bounds.1,
        r matches Err(EncodeError::TooLarge) <==> pixels@.len() == bounds.0 * bounds.1 && (bounds.0
            > u32::MAX || bounds.1 > u32::MAX),
        r matches Ok(bytes) ==> bytes@ == png_gray8(pixels@, bounds.0 as u32, bounds.1 as u32),
        r matches Err(EncodeError::Image(_)) <==> pixels@.len() == bounds.0 * bounds.1 && bounds.0
            <= u32::MAX && bounds.1 <= u32::MAX && (bounds.0 == 0 || bounds.1 == 0),
        r is Ok <==> pixels@.len() == bounds.0 * bounds.1 && 0 < bounds.0 <= u32::MAX && 0
            < bounds.1 <= u32::MAX,
{
    let (width, height) = bounds;
    let len = pixels.len();
    match width.checked_mul(height) {
        None => {
            assert(len < width * height);
            return Err(EncodeError::SizeMismatch);
        },
        Some(total) => {
            if len != total {
                return Err(EncodeError::SizeMismatch);
            }
        },
    }
    if width > u32::MAX as usize || height > u32::MAX as usize {
        return Err(EncodeError::TooLarge);
    }
    match write_png_gray8(pixels, width as u32, height as u32) {
        Ok(bytes) => Ok(bytes),
        Err(e) => Err(EncodeError::Image(e)),
    }
}

} // verus!
