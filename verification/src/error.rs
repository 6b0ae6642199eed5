use vstd::prelude::*;

verus! {

/// Everything that can go wrong between reading an image and writing its mosaic.
#[derive(Clone, Copy, Debug, PartialEq, Eq, Structural)]
pub enum MosaicError {
    /// The input path is missing or is not a regular file.
    InputNotFound,
    /// The tile side length is zero, or so large that the sums of a tile
    /// need not fit 32 bits.
    InvalidTileSize,
    /// The input could not be decoded into one byte per channel and pixel.
    DecodeFailure,
    /// The output path has no extension, or one that no encoder is known for.
    MissingOrUnsupportedOutputExtension,
    /// The output could not be written.
    EncodeFailure,
}

impl MosaicError {
    /// The text of the one message shown for this error.
    pub open spec fn spec_message(self) -> Seq<char> {
        match self {
            MosaicError::InputNotFound => "input image does not exist or is not a file"@,
            MosaicError::InvalidTileSize => "tile side length must be between 1 and 4104"@,
            MosaicError::DecodeFailure => "input image could not be decoded"@,
            MosaicError::MissingOrUnsupportedOutputExtension => "missing or unsupported extension in output image path"@,
            MosaicError::EncodeFailure => "mosaic could not be written"@,
        }
    }

    /// The message to show the user for this error.
    pub fn message(&self) -> (text: &'static str)
        ensures
            text@ == self.spec_message(),
    {
        match self {
            MosaicError::InputNotFound => "input image does not exist or is not a file",
            MosaicError::InvalidTileSize => "tile side length must be between 1 and 4104",
            MosaicError::DecodeFailure => "input image could not be decoded",
            MosaicError::MissingOrUnsupportedOutputExtension => "missing or unsupported extension in output image path",
            MosaicError::EncodeFailure => "mosaic could not be written",
        }
    }
}

} // verus!
