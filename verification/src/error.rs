//! The library's error type.

use vstd::prelude::*;

verus! {

/// The error type of `reqwest`, carried as an opaque value.
#[verifier::external_type_specification]
#[verifier::external_body]
pub struct ExRequestFailure(reqwest::Error);

/// The error type of `serde_json`, carried as an opaque value.
#[verifier::external_type_specification]
#[verifier::external_body]
pub struct ExDecodeFailure(serde_json::Error);

/// The error type of `std::io`, carried as an opaque value.
#[verifier::external_type_specification]
#[verifier::external_body]
pub struct ExIoFailure(std::io::Error);

/// What can go wrong while resolving, querying or downloading.
#[derive(Debug)]
pub enum MangadexError {
    /// A request could not be sent or was answered with a status outside 2xx.
    RequestError(reqwest::Error),
    /// A response body did not have the expected shape.
    DeserializeError(serde_json::Error),
    /// The file system refused an operation.
    IoError(std::io::Error),
    /// The text is a link, but not a link to the expected kind of entry; it
    /// carries the text as it was given.
    UrlParseError(String),
}

} // verus!
