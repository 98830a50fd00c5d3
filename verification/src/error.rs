//! Failure modes of DynamoDB operations, neutral to any application.

use vstd::prelude::*;

verus! {

/// Failure modes of DynamoDB operations, neutral to any application.
///
/// Applications typically wrap this in their own error type and add
/// domain-specific variants there.
#[derive(Debug)]
pub enum Error {
    /// A conditional write was rejected (for example, a create hit an
    /// existing item).
    Conflict(&'static str),
    /// The requested item does not exist.
    NotFound(String),
    /// DynamoDB or (de)serialization failed; the operation may succeed on retry.
    Unavailable(String),
}

/// The text an [`Error`] is displayed as.
pub open spec fn error_text(e: Error) -> Seq<char> {
    match e {
        Error::Conflict(detail) => detail@,
        Error::NotFound(detail) => detail@,
        Error::Unavailable(detail) => "database unavailable: "@ + detail@,
    }
}

impl Error {
    /// The text this error is displayed as.
    pub fn message(&self) -> (r: String)
        ensures
            r@ == error_text(*self),
    {
        match self {
            Error::Conflict(detail) => (*detail).to_owned(),
            Error::NotFound(detail) => detail.clone(),
            Error::Unavailable(detail) => {
                let mut r = "database unavailable: ".to_owned();
                r.append(detail.as_str());
                r
            },
        }
    }
}

} // verus!
