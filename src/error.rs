//! The library's error type.
use vstd::prelude::*;

verus! {

/// An error of the image codec library, carried through unchanged.
#[verifier::external_type_specification]
#[verifier::external_body]
pub struct ExImageError(image::ImageError);

/// Why an encode or decode did not succeed.
#[derive(Debug)]
pub enum ImgSteganoError {
    /// The image bytes could not be decoded or encoded by the image codec.
    ImageError(image::ImageError),
    /// The requested image format is not one that this library knows.
    InvalidImageFormat,
    /// The message needs more bytes than the image can carry.
    MessageTooLarge { required: usize, available: usize },
    /// An empty message was given to encode.
    EmptyMessage,
    /// The decoded bytes are not valid UTF-8.
    InvalidUtf8,
    /// The format named is lossy and may destroy the hidden bits (advisory).
    LossyFormatWarning { format: String },
}

} // verus!
