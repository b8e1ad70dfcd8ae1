//! Error taxonomy of the converter.

use vstd::prelude::*;
use vstd::string::StringExecFns;

verus! {

/// Everything that can go wrong while classifying input, discovering
/// candidates, or converting a file. Variants that wrap lower-level failures
/// (I/O, directory traversal, codec errors) carry the cause as text.
#[derive(Debug)]
pub enum WebPError {
    /// The input path does not exist.
    InputNotFound(String),
    /// The input path exists but is neither a regular file nor a directory.
    InvalidInputType(String),
    /// The input data does not decode as a supported image.
    InvalidImage(String),
    /// A path whose file name cannot be used.
    InvalidFileName(String),
    /// The decoder accepted the file but processing it failed.
    ImageProcessingError(String),
    /// The encoder failed, including the case of an empty output.
    EncodingError(String),
    /// A read or write failed.
    IoError(String),
    /// Directory traversal failed.
    WalkDirError(String),
    /// Discovery found no convertible files.
    NoImagesFound,
}

impl WebPError {
    /// Human-readable description: a fixed per-variant prefix followed by
    /// the wrapped path or cause, mirroring the messages the command-line
    /// tool prints.
    pub fn describe(&self) -> (r: String)
        ensures
            r@ == match self {
                WebPError::InputNotFound(p) => "Input file or directory not found: "@ + p@,
                WebPError::InvalidInputType(p) => "Invalid input type (neither file nor directory): "@
                    + p@,
                WebPError::InvalidImage(p) => "Invalid or unsupported image file: "@ + p@,
                WebPError::InvalidFileName(p) => "Invalid file name: "@ + p@,
                WebPError::ImageProcessingError(m) => "Image processing failed: "@ + m@,
                WebPError::EncodingError(m) => "Encoding failed: "@ + m@,
                WebPError::IoError(m) => "File I/O error: "@ + m@,
                WebPError::WalkDirError(m) => "Directory traversal error: "@ + m@,
                WebPError::NoImagesFound => "No supported image files found in directory"@,
            },
    {
        match self {
            WebPError::InputNotFound(p) => String::from_str(
                "Input file or directory not found: ",
            ).concat(p.as_str()),
            WebPError::InvalidInputType(p) => String::from_str(
                "Invalid input type (neither file nor directory): ",
            ).concat(p.as_str()),
            WebPError::InvalidImage(p) => String::from_str(
                "Invalid or unsupported image file: ",
            ).concat(p.as_str()),
            WebPError::InvalidFileName(p) => String::from_str("Invalid file name: ").concat(
                p.as_str(),
            ),
            WebPError::ImageProcessingError(m) => String::from_str(
                "Image processing failed: ",
            ).concat(m.as_str()),
            WebPError::EncodingError(m) => String::from_str("Encoding failed: ").concat(
                m.as_str(),
            ),
            WebPError::IoError(m) => String::from_str("File I/O error: ").concat(m.as_str()),
            WebPError::WalkDirError(m) => String::from_str("Directory traversal error: ").concat(
                m.as_str(),
            ),
            WebPError::NoImagesFound => String::from_str(
                "No supported image files found in directory",
            ),
        }
    }
}

/// Result alias used throughout the converter.
pub type WebPResult<T> = Result<T, WebPError>;

} // verus!
