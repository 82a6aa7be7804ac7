//! The reasons for which the resolution of a package's version fails.

use vstd::prelude::*;

verus! {

/// Why a step of the resolution, or the resolution as a whole, failed.
#[derive(Clone, Copy, Debug, PartialEq, Eq, Structural)]
pub enum Error {
    /// The package names no upstream page.
    EmptyUpstream,
    /// No explicit query was given and no rule matches the upstream URL.
    NoSelectorFound,
    /// The query is not a structural selector.
    InvalidQuery,
    /// The page could not be fetched.
    TransportFailure,
    /// The query matched no element with text.
    NoMatch,
    /// The element's text holds no version number.
    VersionNotFound,
    /// Every attempt failed in a way that another attempt might have mended.
    GenericFailure,
}

impl Error {
    /// Whether another attempt may succeed where this failure occurred.
    pub open spec fn retryable(self) -> bool {
        self is TransportFailure || self is NoMatch || self is VersionNotFound
    }

    /// The text that reports this failure.
    pub open spec fn message_text(self) -> Seq<char> {
        match self {
            Error::EmptyUpstream => "Empty upstream"@,
            Error::NoSelectorFound => "No valid selector found"@,
            Error::InvalidQuery => "Invalid selector pattern"@,
            Error::TransportFailure => "Page could not be fetched"@,
            Error::NoMatch => "No element matched"@,
            Error::VersionNotFound => "Version not found"@,
            Error::GenericFailure => "Generic failure"@,
        }
    }

    /// Whether another attempt may succeed where this failure occurred.
    pub fn is_retryable(&self) -> (b: bool)
        ensures
            b == self.retryable(),
    {
        match self {
            Error::TransportFailure | Error::NoMatch | Error::VersionNotFound => true,
            _ => false,
        }
    }

    /// The text that reports this failure.
    pub fn message(&self) -> (s: String)
        ensures
            s@ == self.message_text(),
    {
        match self {
            Error::EmptyUpstream => "Empty upstream".to_string(),
            Error::NoSelectorFound => "No valid selector found".to_string(),
            Error::InvalidQuery => "Invalid selector pattern".to_string(),
            Error::TransportFailure => "Page could not be fetched".to_string(),
            Error::NoMatch => "No element matched".to_string(),
            Error::VersionNotFound => "Version not found".to_string(),
            Error::GenericFailure => "Generic failure".to_string(),
        }
    }
}

/// The view of a result that carries a string.
pub open spec fn result_view(r: Result<String, Error>) -> Result<Seq<char>, Error> {
    match r {
        Ok(s) => Ok(s@),
        Err(e) => Err(e),
    }
}

} // verus!
