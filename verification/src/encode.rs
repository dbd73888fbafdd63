//! From pixel text to the bytes of a PNG file.

use vstd::prelude::*;
use crate::error::DmiError;
use crate::number::{parse_u32, u32_literal};
use crate::pixel::{decode_outcome, decode_pixels};

verus! {

/// `png::EncodingError`, the error of the `png` encoder: carried through
/// as it is, with nothing known of what it holds.
#[verifier::external_type_specification]
#[verifier::external_body]
pub struct ExEncodingError(png::EncodingError);

/// The PNG stream that the `png` crate writes for an 8-bit RGB image of
/// `width` by `height` pixels with these bytes, or `None` where its encoder
/// reports an error.
pub uninterp spec fn rgb8_png(width: u32, height: u32, pixels: Seq<u8>) -> Option<Seq<u8>>;

/// Runs `png::Encoder` on a buffer in memory: `Encoder::new`, colour type
/// RGB, bit depth eight, `write_header`, `Writer::write_image_data`,
/// `Writer::finish`. Nothing is claimed of the stream but that it is the one
/// the encoder writes for these arguments. The sizes are asked to agree
/// because the encoder's own size check multiplies without a guard.
#[verifier::external_body]
fn encode_rgb8(width: u32, height: u32, pixels: &[u8]) -> (r: Result<Vec<u8>, png::EncodingError>)
    requires
        width > 0,
        height > 0,
        pixels@.len() == 3 * width * height,
    ensures
        match r {
            Ok(bytes) => rgb8_png(width, height, pixels@) == Some(bytes@),
            Err(_) => rgb8_png(width, height, pixels@) is None,
        },
{
    let mut out: Vec<u8> = Vec::new();
    let mut encoder = png::Encoder::new(&mut out, width, height);
    encoder.set_color(png::ColorType::Rgb);
    encoder.set_depth(png::BitDepth::Eight);
    let mut writer = encoder.write_header()?;
    writer.write_image_data(pixels)?;
    writer.finish()?;
    Ok(out)
}

/// The text of a `png::EncodingError`, as its `Display` gives it. Nothing
/// is claimed of the text.
#[verifier::external_body]
fn encoding_message(e: &png::EncodingError) -> (r: String) {
    e.to_string()
}

/// Whether a buffer of `bytes` bytes holds an RGB image of `width` by
/// `height` pixels, neither side zero.
pub open spec fn fits(width: u32, height: u32, bytes: nat) -> bool {
    width > 0 && height > 0 && bytes == 3 * width * height
}

/// Tells whether a buffer of `bytes` bytes holds an RGB image of `width` by
/// `height` pixels.
pub fn check_size(width: u32, height: u32, bytes: usize) -> (r: bool)
    ensures
        r == fits(width, height, bytes as nat),
{
    if width == 0 || height == 0 {
        return false;
    }
    let w: u128 = width as u128;
    let h: u128 = height as u128;
    assert(w * h <= 0xFFFF_FFFF * 0xFFFF_FFFF) by (nonlinear_arith)
        requires
            w <= 0xFFFF_FFFF,
            h <= 0xFFFF_FFFF,
    ;
    let area: u128 = w * h;
    let want: u128 = 3 * area;
    assert(want == 3 * width * height) by (nonlinear_arith)
        requires
            want == 3 * (w * h),
            w == width,
            h == height,
    ;
    want == bytes as u128
}

/// Turns what the encoder gave into the library's own result: the stream
/// as it is, or the encoder's message as an error.
pub fn encoded(outcome: Result<Vec<u8>, png::EncodingError>) -> (r: Result<Vec<u8>, DmiError>)
    ensures
        match outcome {
            Ok(bytes) => r == Ok::<Vec<u8>, DmiError>(bytes),
            Err(_) => r matches Err(DmiError::ImageEncoding { .. }),
        },
{
    match outcome {
        Ok(bytes) => Ok(bytes),
        Err(e) => Err(DmiError::ImageEncoding { message: encoding_message(&e) }),
    }
}

/// Encodes an RGB buffer as a PNG stream, after checking that it holds
/// `width` by `height` pixels.
pub fn encode_png(width: u32, height: u32, pixels: &[u8]) -> (r: Result<Vec<u8>, DmiError>)
    ensures
        if !fits(width, height, pixels@.len()) {
            r == Err::<Vec<u8>, DmiError>(
                DmiError::ImageSize { width, height, bytes: pixels@.len() as usize },
            )
        } else {
            match rgb8_png(width, height, pixels@) {
                Some(stream) => r matches Ok(bytes) && bytes@ == stream,
                None => r matches Err(DmiError::ImageEncoding { .. }),
            }
        },
{
    if !check_size(width, height, pixels.len()) {
        return Err(DmiError::ImageSize { width, height, bytes: pixels.len() });
    }
    encoded(encode_rgb8(width, height, pixels))
}

/// Builds the PNG stream of an image from its width and height, written as
/// unsigned integers, and its pixel text.
///
/// The checks come in this order: the width and the height, the pixel
/// text, the size of the decoded buffer, and last the encoder.
pub fn create_png(width: &[u8], height: &[u8], data: &[u8]) -> (r: Result<Vec<u8>, DmiError>)
    ensures
        match (u32_literal(width@), u32_literal(height@)) {
            (Some(w), Some(h)) => match decode_outcome(data@) {
                Err(at) => r == Err::<Vec<u8>, DmiError>(
                    DmiError::InvalidPixelData { offset: at as usize },
                ),
                Ok(pixels) => if !fits(w, h, pixels.len()) {
                    r == Err::<Vec<u8>, DmiError>(
                        DmiError::ImageSize { width: w, height: h, bytes: pixels.len() as usize },
                    )
                } else {
                    match rgb8_png(w, h, pixels) {
                        Some(stream) => r matches Ok(bytes) && bytes@ == stream,
                        None => r matches Err(DmiError::ImageEncoding { .. }),
                    }
                },
            },
            _ => r == Err::<Vec<u8>, DmiError>(DmiError::InvalidDimension),
        },
{
    let w = match parse_u32(width) {
        Some(w) => w,
        None => {
            return Err(DmiError::InvalidDimension);
        },
    };
    let h = match parse_u32(height) {
        Some(h) => h,
        None => {
            return Err(DmiError::InvalidDimension);
        },
    };
    match decode_pixels(data) {
        Err(e) => Err(e),
        Ok(pixels) => encode_png(w, h, pixels.as_slice()),
    }
}

} // verus!
