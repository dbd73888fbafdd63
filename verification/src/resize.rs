//! What a resize asks for: the new size and the filter to resample with.

use vstd::prelude::*;
use vstd::string::*;
use crate::error::DmiError;
use crate::number::{parse_u32, u32_literal};
use crate::text::{is_word, spells};

verus! {

/// A resampling filter.
#[derive(Debug, Clone, Copy, PartialEq, Eq, Structural)]
pub enum ResizeFilter {
    CatmullRom,
    Gaussian,
    Lanczos3,
    Nearest,
    Triangle,
}

/// The filter that a selector names; `Nearest` for any selector that is
/// not one of the five names.
pub open spec fn filter_named(selector: Seq<u8>) -> ResizeFilter {
    if spells(selector, "catmull"@) {
        ResizeFilter::CatmullRom
    } else if spells(selector, "gaussian"@) {
        ResizeFilter::Gaussian
    } else if spells(selector, "lanczos3"@) {
        ResizeFilter::Lanczos3
    } else if spells(selector, "triangle"@) {
        ResizeFilter::Triangle
    } else {
        ResizeFilter::Nearest
    }
}

/// Picks the filter that a selector names.
pub fn select_filter(selector: &[u8]) -> (r: ResizeFilter)
    ensures
        r == filter_named(selector@),
{
    proof {
        reveal_strlit("catmull");
        reveal_strlit("gaussian");
        reveal_strlit("lanczos3");
        reveal_strlit("triangle");
        assert(selector@.subrange(0, selector@.len() as int) =~= selector@);
    }
    let n: usize = selector.len();
    if is_word(selector, 0, n, "catmull") {
        ResizeFilter::CatmullRom
    } else if is_word(selector, 0, n, "gaussian") {
        ResizeFilter::Gaussian
    } else if is_word(selector, 0, n, "lanczos3") {
        ResizeFilter::Lanczos3
    } else if is_word(selector, 0, n, "triangle") {
        ResizeFilter::Triangle
    } else {
        ResizeFilter::Nearest
    }
}

/// A resize: the bounds of the new image and the filter.
#[derive(Debug, Clone, Copy, PartialEq, Eq, Structural)]
pub struct ResizeRequest {
    pub width: u32,
    pub height: u32,
    pub filter: ResizeFilter,
}

/// Reads a resize from its three textual arguments. The width and the
/// height must be unsigned integers; any selector is accepted.
pub fn resize_request(width: &[u8], height: &[u8], selector: &[u8]) -> (r: Result<
    ResizeRequest,
    DmiError,
>)
    ensures
        match (u32_literal(width@), u32_literal(height@)) {
            (Some(w), Some(h)) => r == Ok::<ResizeRequest, DmiError>(
                ResizeRequest { width: w, height: h, filter: filter_named(selector@) },
            ),
            _ => r == Err::<ResizeRequest, DmiError>(DmiError::InvalidDimension),
        },
{
    match (parse_u32(width), parse_u32(height)) {
        (Some(w), Some(h)) => Ok(ResizeRequest { width: w, height: h, filter: select_filter(selector) }),
        _ => Err(DmiError::InvalidDimension),
    }
}

} // verus!
