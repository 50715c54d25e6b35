//! What a decode ends with: the dimensions of an image, or the reason why there are none.

use crate::format::ImFormat;
use vstd::prelude::*;
use vstd::string::StringExecFns;

verus! {

/// An error of the byte source, carried through unopened.
#[verifier::external_type_specification]
#[verifier::external_body]
pub struct ExIoError(std::io::Error);

/// The dimensions of an image in pixels, and the format they were read from.
#[derive(Debug, Clone, Copy, PartialEq, Eq, Structural)]
pub struct ImInfo {
    pub width: u64,
    pub height: u64,
    pub format: ImFormat,
}

/// Why no dimensions were found.
#[derive(Debug)]
pub enum ImError {
    /// The byte source failed before any signature was settled.
    IO(std::io::Error),
    /// No signature matched the first bytes.
    UnknownFormat,
    /// The signature of the format matched, but what follows is not laid out as
    /// the format asks, or ends too early.
    ParserError(ImFormat),
}

pub type ImResult<T> = Result<T, ImError>;

/// The dimensions as a result.
pub open spec fn found(format: ImFormat, width: int, height: int) -> ImResult<ImInfo> {
    Ok(ImInfo { width: width as u64, height: height as u64, format })
}

/// The result of a file that bears the signature of `format` and is not well formed.
pub open spec fn malformed(format: ImFormat) -> ImResult<ImInfo> {
    Err(ImError::ParserError(format))
}

/// The result of a file that bears no signature.
pub open spec fn unrecognized() -> ImResult<ImInfo> {
    Err(ImError::UnknownFormat)
}

/// The results that speak of `format`: dimensions read from it, or its parse error.
pub open spec fn speaks_of(result: ImResult<ImInfo>, format: ImFormat) -> bool {
    match result {
        Ok(info) => info.format == format,
        Err(ImError::ParserError(f)) => f == format,
        Err(_) => false,
    }
}

impl From<std::io::Error> for ImError {
    fn from(error: std::io::Error) -> (r: ImError) {
        ImError::IO(error)
    }
}

impl vstd::std_specs::convert::FromSpecImpl<std::io::Error> for ImError {
    open spec fn obeys_from_spec() -> bool {
        true
    }

    open spec fn from_spec(error: std::io::Error) -> ImError {
        ImError::IO(error)
    }
}

/// The text of `std::io::Error`'s `Display`, which is the error's own to say:
/// nothing is claimed of it.
#[verifier::external_body]
fn io_error_text(error: &std::io::Error) -> String {
    error.to_string()
}

impl ImError {
    /// The text of an error that is not one of the byte source.
    pub open spec fn text_of(self) -> Seq<char> {
        match self {
            ImError::ParserError(format) => "Error parsing "@ + format.name_of() + " image"@,
            _ => "Unknown Format"@,
        }
    }

    /// The error in words. For an error of the byte source these are the
    /// source's own words.
    pub fn message(&self) -> (r: String)
        ensures
            !(self is IO) ==> r@ == self.text_of(),
    {
        match self {
            ImError::IO(error) => io_error_text(error),
            ImError::UnknownFormat => String::from_str("Unknown Format"),
            ImError::ParserError(format) => {
                String::from_str("Error parsing ").concat(format.name()).concat(" image")
            },
        }
    }
}

} // verus!
