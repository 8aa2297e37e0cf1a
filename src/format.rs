//! Which output image formats may receive an image.
use crate::error::StegoError;
use vstd::prelude::*;

verus! {

/// The kind of image file that an output path names.
#[derive(Clone, Copy, Debug, PartialEq, Eq, Structural)]
pub enum ImageFileFormat {
    Png,
    Tiff,
    /// A known format other than PNG and TIFF.
    Other,
    /// The path's extension names no known format.
    Unknown,
}

/// The format that the extension of a path names.
pub uninterp spec fn format_of_path(path: Seq<char>) -> ImageFileFormat;

/// Relies on `image::ImageFormat::from_path`: the format named by the
/// path's extension, which depends on the path alone.
#[verifier::external_body]
fn image_format_from_path(path: &str) -> (r: ImageFileFormat)
    ensures
        r == format_of_path(path@),
{
    match image::ImageFormat::from_path(path) {
        Ok(image::ImageFormat::Png) => ImageFileFormat::Png,
        Ok(image::ImageFormat::Tiff) => ImageFileFormat::Tiff,
        Ok(_) => ImageFileFormat::Other,
        Err(_) => ImageFileFormat::Unknown,
    }
}

/// Whether an image may be saved in `format`: a format that is not known
/// is refused, and after an embedding only PNG and TIFF, which keep every
/// pixel byte, are accepted.
pub open spec fn output_allowed(format: ImageFileFormat, embedding: bool) -> Result<(), StegoError> {
    if format == ImageFileFormat::Unknown {
        Err(StegoError::UnknownImageFormat)
    } else if embedding && format != ImageFileFormat::Png && format != ImageFileFormat::Tiff {
        Err(StegoError::UnsupportedOutputFormat)
    } else {
        Ok(())
    }
}

/// Decides whether an image may be saved in `format`; `embedding` tells
/// whether a payload was written into it.
pub fn check_output_format(format: ImageFileFormat, embedding: bool) -> (r: Result<(), StegoError>)
    ensures
        r == output_allowed(format, embedding),
{
    match format {
        ImageFileFormat::Unknown => Err(StegoError::UnknownImageFormat),
        ImageFileFormat::Png | ImageFileFormat::Tiff => Ok(()),
        ImageFileFormat::Other => {
            if embedding {
                Err(StegoError::UnsupportedOutputFormat)
            } else {
                Ok(())
            }
        },
    }
}

/// Decides whether an image may be saved at `path`, by the format that its
/// extension names.
pub fn check_output_path(path: &str, embedding: bool) -> (r: Result<(), StegoError>)
    ensures
        r == output_allowed(format_of_path(path@), embedding),
{
    let format = image_format_from_path(path);
    check_output_format(format, embedding)
}

} // verus!
