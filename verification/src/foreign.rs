//! What a result looks like to a caller that takes plain integers only: a
//! status and a record of numbers.

use crate::error::{ImError, ImInfo, ImResult};
use vstd::array::array_fill_for_copy_types;
use vstd::prelude::*;

verus! {

/// The status of a decode that found the dimensions.
pub const STATUS_OK: i32 = 0;

/// The status of a byte source that failed and gave no number for its error.
pub const STATUS_IO: i32 = -1;

/// The status of a file that bears the signature of a format and is not well formed.
pub const STATUS_MALFORMED: i32 = -2;

/// The status of a file that bears no signature.
pub const STATUS_UNKNOWN: i32 = -3;

/// A result in plain numbers.
#[derive(Debug, Clone, Copy, PartialEq, Eq, Structural)]
pub struct Report {
    /// 0 for dimensions; the platform's number of the error, or -1 where it
    /// has none, for a failure of the byte source; -2 for a malformed file; -3
    /// for an unknown format.
    pub status: i32,
    /// The number of the format, where the result speaks of one.
    pub format: Option<u32>,
    /// The width, where the dimensions were found.
    pub width: Option<u64>,
    /// The height, where the dimensions were found.
    pub height: Option<u64>,
}

/// The report on `result`, where `os_code` is the platform's number of the
/// error of the byte source, if the result is such an error and has one.
pub open spec fn report_of(result: ImResult<ImInfo>, os_code: Option<i32>) -> Report {
    match result {
        Ok(info) => Report {
            status: STATUS_OK,
            format: Some(info.format.code_of() as u32),
            width: Some(info.width),
            height: Some(info.height),
        },
        Err(ImError::IO(_)) => Report {
            status: match os_code {
                Some(code) => code,
                None => STATUS_IO,
            },
            format: None,
            width: None,
            height: None,
        },
        Err(ImError::ParserError(format)) => Report {
            status: STATUS_MALFORMED,
            format: Some(format.code_of() as u32),
            width: None,
            height: None,
        },
        Err(ImError::UnknownFormat) => Report {
            status: STATUS_UNKNOWN,
            format: None,
            width: None,
            height: None,
        },
    }
}

/// `std::io::Error::raw_os_error`: the platform's number of the error, where
/// the platform gave the error. What it is lies with the error: nothing is
/// claimed of it.
#[verifier::external_body]
fn raw_os_error(error: &std::io::Error) -> Option<i32> {
    error.raw_os_error()
}

/// The report on `result`, with `os_code` for the platform's number of a
/// failure of the byte source.
pub fn report_with(result: &ImResult<ImInfo>, os_code: Option<i32>) -> (r: Report)
    ensures
        r == report_of(*result, os_code),
{
    match result {
        Ok(info) => Report {
            status: STATUS_OK,
            format: Some(info.format.code()),
            width: Some(info.width),
            height: Some(info.height),
        },
        Err(ImError::IO(_)) => Report {
            status: match os_code {
                Some(code) => code,
                None => STATUS_IO,
            },
            format: None,
            width: None,
            height: None,
        },
        Err(ImError::ParserError(format)) => Report {
            status: STATUS_MALFORMED,
            format: Some(format.code()),
            width: None,
            height: None,
        },
        Err(ImError::UnknownFormat) => Report {
            status: STATUS_UNKNOWN,
            format: None,
            width: None,
            height: None,
        },
    }
}

/// The report on `result`. For a failure of the byte source the status is the
/// number that the error itself gives, or -1 where it gives none.
pub fn report(result: &ImResult<ImInfo>) -> (r: Report)
    ensures
        !(*result matches Err(ImError::IO(_))) ==> r == report_of(*result, None),
        *result matches Err(ImError::IO(_)) ==> exists|os_code: Option<i32>|
            r == report_of(*result, os_code),
{
    match result {
        Err(ImError::IO(error)) => {
            let os_code = raw_os_error(error);
            report_with(result, os_code)
        },
        _ => report_with(result, None),
    }
}

/// The text `ascii` in units of 16 bits, one for each byte.
pub fn w<const LEN: usize>(ascii: &[u8; LEN]) -> (wide: [u16; LEN])
    ensures
        forall|i: int| 0 <= i < LEN ==> wide@[i] == ascii@[i] as u16,
{
    let mut wide: [u16; LEN] = array_fill_for_copy_types(0u16);
    let mut index: usize = 0;
    while index < LEN
        invariant
            index <= LEN,
            forall|i: int| 0 <= i < index ==> wide@[i] == ascii@[i] as u16,
        decreases LEN - index,
    {
        wide[index] = ascii[index] as u16;
        index += 1;
    }
    wide
}

} // verus!
