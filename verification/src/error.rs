//! The two ways in which this crate fails.

use vstd::prelude::*;
use vstd::string::*;

verus! {

/// An error of the site.
#[derive(Debug, Clone)]
pub enum AppError {
    /// The requested page is not in the store; holds the key that was asked
    /// for.
    NotFound(String),
    /// A document could not be accepted; holds the reason.
    ParseError(String),
}

/// The mathematical model of an `AppError`.
pub ghost enum Failure {
    NotFound(Seq<char>),
    ParseError(Seq<char>),
}

impl View for AppError {
    type V = Failure;

    open spec fn view(&self) -> Failure {
        match self {
            AppError::NotFound(key) => Failure::NotFound(key@),
            AppError::ParseError(reason) => Failure::ParseError(reason@),
        }
    }
}

impl Failure {
    /// The one-line description of the failure.
    pub open spec fn message(self) -> Seq<char> {
        match self {
            Failure::NotFound(key) => "page not found: "@ + key,
            Failure::ParseError(reason) => "parse error: "@ + reason,
        }
    }

    /// The HTTP status that answers a request which ended in this failure.
    pub open spec fn status(self) -> int {
        match self {
            Failure::NotFound(_) => 404,
            Failure::ParseError(_) => 500,
        }
    }

    /// The body of the answer to a request which ended in this failure.
    pub open spec fn body(self) -> Seq<char> {
        match self {
            Failure::NotFound(key) => "404 Not Found: "@ + key,
            Failure::ParseError(reason) => "500 Internal Server Error: "@ + reason,
        }
    }
}

impl AppError {
    /// The one-line description of the error.
    pub fn message(&self) -> (r: String)
        ensures
            r@ == self@.message(),
    {
        match self {
            AppError::NotFound(key) => String::from_str("page not found: ").concat(key.as_str()),
            AppError::ParseError(reason) => String::from_str("parse error: ").concat(
                reason.as_str(),
            ),
        }
    }

    /// The HTTP status to answer with: 404 where the page is missing, 500
    /// where a document was refused.
    pub fn status_code(&self) -> (r: u16)
        ensures
            r == self@.status(),
    {
        match self {
            AppError::NotFound(_) => 404,
            AppError::ParseError(_) => 500,
        }
    }

    /// The body to answer with.
    pub fn response_body(&self) -> (r: String)
        ensures
            r@ == self@.body(),
    {
        match self {
            AppError::NotFound(key) => String::from_str("404 Not Found: ").concat(key.as_str()),
            AppError::ParseError(reason) => String::from_str(
                "500 Internal Server Error: ",
            ).concat(reason.as_str()),
        }
    }
}

} // verus!
