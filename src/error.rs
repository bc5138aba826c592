//! Errors reported by the frame decoder core.

use vstd::prelude::*;

verus! {

/// jxl_coding::Error, the entropy decoder's own error, passed through
/// opaquely and unchanged.
#[verifier::external_type_specification]
#[verifier::external_body]
pub struct ExCodingError(jxl_coding::Error);

/// What can go wrong while decoding a frame.
#[derive(Debug)]
pub enum FrameError {
    /// More splines than the frame size allows; holds the count read.
    TooManySplines(u64),
    /// More control points in one spline than the frame size allows; holds
    /// the count read.
    TooManySplinePoints(u64),
    /// A section that completion needs was never read.
    IncompleteFrameData { field: &'static str },
    /// An entropy-decoding or bitstream error.
    Coding(jxl_coding::Error),
}

} // verus!
