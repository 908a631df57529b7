//! What can go wrong while building a sheet.

use vstd::prelude::*;

verus! {

/// The image codec's failure to decode a buffer.
#[verifier::external_type_specification]
#[verifier::external_body]
pub struct ExImageError(image::ImageError);

/// The HTTP client's failure to fetch a source.
#[verifier::external_type_specification]
#[verifier::external_body]
pub struct ExRequestError(reqwest::Error);

/// A payload that is not valid base64 in the engine that was tried.
#[verifier::external_type_specification]
#[verifier::external_body]
pub struct ExDecodeError(base64::DecodeError);

/// Bytes that are not valid UTF-8.
#[verifier::external_type_specification]
#[verifier::external_body]
pub struct ExFromUtf8Error(std::string::FromUtf8Error);

/// Every failure of the pipeline; each stage stops at the first one.
#[derive(Debug)]
pub enum GridError {
    /// A source's bytes are not an image in a supported format.
    ImageDecodeError(image::ImageError),
    /// No sources were given, or none was left after filtering.
    EmptyInput,
    /// Fetching a source failed.
    DownloadError(reqwest::Error),
    /// None of the base64 variants could decode the source list.
    Base64DecodeError(base64::DecodeError),
    /// The decoded source list is not UTF-8 text.
    Utf8Error(std::string::FromUtf8Error),
    /// The canvas for these tiles would not fit in memory.
    CanvasTooLarge,
}

} // verus!
