//! The ways in which embedding or extraction can fail.
use vstd::prelude::*;

verus! {

/// Why an operation on an image buffer was refused.
#[derive(Clone, Copy, Debug, PartialEq, Eq, Structural)]
pub enum StegoError {
    /// The image is not eight-bit RGBA, so carriers cannot be identified.
    UnsupportedColorModel,
    /// Strict mode was asked for and the carriers cannot hold every byte.
    InsufficientCapacity,
    /// The header cannot be read, or fewer bytes follow it than it announces.
    CorruptPayload,
    /// An embedding was asked for and the output format is neither PNG nor TIFF.
    UnsupportedOutputFormat,
    /// The output path names no image format that is known.
    UnknownImageFormat,
}

impl StegoError {
    /// A short description of the failure for people to read.
    pub fn message(&self) -> (r: &'static str)
        ensures
            *self == StegoError::UnsupportedColorModel ==> r@ == "unsupported color model"@,
            *self == StegoError::InsufficientCapacity ==> r@
                == "there is not enough free space in the image"@,
            *self == StegoError::CorruptPayload ==> r@ == "error extracting text"@,
            *self == StegoError::UnsupportedOutputFormat ==> r@
                == "unsupported image output format"@,
            *self == StegoError::UnknownImageFormat ==> r@
                == "the output path names no known image format"@,
    {
        match self {
            StegoError::UnsupportedColorModel => "unsupported color model",
            StegoError::InsufficientCapacity => "there is not enough free space in the image",
            StegoError::CorruptPayload => "error extracting text",
            StegoError::UnsupportedOutputFormat => "unsupported image output format",
            StegoError::UnknownImageFormat => "the output path names no known image format",
        }
    }
}

} // verus!
