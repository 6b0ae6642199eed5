use crate::error::MosaicError;
use image::ImageFormat;
use vstd::prelude::*;

verus! {

/// The encodings that the image crate knows, as it names them.
#[verifier::external_type_specification]
#[verifier::external_body]
pub struct ExImageFormat(ImageFormat);

/// The encoding that the image crate assigns to a file extension, if it
/// knows the extension.
pub uninterp spec fn format_of_extension(extension: Seq<char>) -> Option<ImageFormat>;

/// `image::ImageFormat::from_extension`: the encoding for a file extension,
/// which depends on the characters of the extension and on nothing else.
#[verifier::external_body]
pub(crate) fn format_from_extension(extension: &str) -> (format: Option<ImageFormat>)
    ensures
        format == format_of_extension(extension@),
{
    ImageFormat::from_extension(extension)
}

/// What the search for an encoding comes to: the encoding that was found,
/// or the error of a missing or unsupported extension.
pub open spec fn found_or_unsupported(found: Option<ImageFormat>) -> Result<
    ImageFormat,
    MosaicError,
> {
    match found {
        Some(format) => Ok(format),
        None => Err(MosaicError::MissingOrUnsupportedOutputExtension),
    }
}

/// Turns the outcome of the search for an encoding into the encoding or
/// the error of a missing or unsupported extension.
pub fn require_format(found: Option<ImageFormat>) -> (format: Result<ImageFormat, MosaicError>)
    ensures
        format == found_or_unsupported(found),
{
    match found {
        Some(format) => Ok(format),
        None => Err(MosaicError::MissingOrUnsupportedOutputExtension),
    }
}

/// The encoding in which to write the mosaic, by the extension of the
/// output path. A path without an extension has none, and neither has one
/// with an extension that the image crate does not know.
pub fn output_format(extension: Option<&str>) -> (format: Result<ImageFormat, MosaicError>)
    ensures
        extension is None ==> format == Err::<ImageFormat, MosaicError>(
            MosaicError::MissingOrUnsupportedOutputExtension,
        ),
        extension is Some ==> format == found_or_unsupported(
            format_of_extension(extension->Some_0@),
        ),
{
    match extension {
        Some(extension) => require_format(format_from_extension(extension)),
        None => Err(MosaicError::MissingOrUnsupportedOutputExtension),
    }
}

} // verus!
