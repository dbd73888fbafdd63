//! The error type shared by the parser and the pixel codec.

use vstd::prelude::*;

verus! {

/// Why an operation of this library failed.
#[derive(Debug, Clone, PartialEq, Eq)]
pub enum DmiError {
    /// A metadata line could not be read: an unknown header keyword, a header
    /// keyword inside a state block, a missing `=` or value, or a malformed
    /// literal. `line_number` counts from 1; `line` is the line's text.
    MalformedMetadata { line_number: usize, line: Vec<u8> },
    /// A metadata line reads well but breaks a rule of the model: a direction
    /// count outside 1, 4 and 8, or a frame count of zero.
    ValidationError { line_number: usize, line: Vec<u8> },
    /// Pixel text that is not a whole number of groups (then `offset` is the
    /// length of the text), or a group with a character that is no hex digit
    /// (then `offset` is where that group starts).
    InvalidPixelData { offset: usize },
    /// A width or a height that is no unsigned integer.
    InvalidDimension,
    /// A pixel buffer of `bytes` bytes for an image of `width` by `height`
    /// pixels: a side is zero, or the buffer is not three bytes per pixel.
    ImageSize { width: u32, height: u32, bytes: usize },
    /// The image encoder gave up; `message` is what it said.
    ImageEncoding { message: String },
}

} // verus!
