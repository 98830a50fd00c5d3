//! SDK error mapping decisions, for extension code that sends its own
//! requests.

use crate::error::Error;
use vstd::prelude::*;

verus! {

/// The error code DynamoDB reports for a rejected condition expression.
pub open spec fn condition_failed_code() -> Seq<char> {
    "ConditionalCheckFailedException"@
}

/// Whether a service error code is a rejected condition expression
/// (`ConditionalCheckFailedException`).
pub fn conditional_code(code: Option<&str>) -> (r: bool)
    ensures
        r == (code matches Some(c) && c@ == condition_failed_code()),
{
    match code {
        Some(c) => c.to_owned() == "ConditionalCheckFailedException".to_owned(),
        None => false,
    }
}

/// Maps any displayable error to [`Error::Unavailable`], carrying its
/// displayed text.
pub fn unavailable<T: std::fmt::Display>(error: T) -> (r: Error)
    ensures
        r matches Error::Unavailable(text) && vstd::string::to_string_from_display_ensures::<T>(
            &error,
            text,
        ),
{
    Error::Unavailable(error.to_string())
}

/// Maps a failed request to [`Error::Conflict`] with the given detail when
/// its service error code is a rejected condition, and to
/// [`Error::Unavailable`] otherwise.
pub fn conflict<T: std::fmt::Display>(code: Option<&str>, error: T, detail: &'static str) -> (r:
    Error)
    ensures
        (code matches Some(c) && c@ == condition_failed_code()) ==> r == Error::Conflict(detail),
        !(code matches Some(c) && c@ == condition_failed_code()) ==> (r matches Error::Unavailable(
            text,
        ) && vstd::string::to_string_from_display_ensures::<T>(&error, text)),
{
    if conditional_code(code) {
        Error::Conflict(detail)
    } else {
        unavailable(error)
    }
}

} // verus!
