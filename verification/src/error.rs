//! The ways in which making an engine or rendering can fail.

use vstd::prelude::*;

verus! {

/// The error of the `image` crate, as decoding returns it. It is carried
/// along and never looked into.
#[verifier::external_type_specification]
#[verifier::external_body]
pub struct ExImageError(image::ImageError);

/// Why an engine could not be made, or a frame not rendered.
#[derive(Debug)]
pub enum EngineError {
    /// Neither a width nor a height was asked for, or the frame to render
    /// would have no pixels.
    InvalidDimensions,
    /// The bytes are not an image that the decoder accepts. The decoder's
    /// own error is inside, unchanged.
    DecodeError(image::ImageError),
}

} // verus!
