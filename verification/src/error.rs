use vstd::prelude::*;

verus! {

/// The two failure classes of the archiving pipeline. A caller can branch on
/// retryability: a `RequestError` may be retried, a `ParseError` never.
#[derive(Debug)]
pub enum Error {
    /// The input URL or the page markup could not be parsed.
    /// Fatal to the whole operation; never retried.
    ParseError(String),
    /// A network or transport failure: connection, timeout, non-success
    /// status, or body-decode failure.
    RequestError(String),
}

impl Error {
    /// The human-readable description carried by the error.
    pub fn message(&self) -> (m: &String)
        ensures
            m@ == self.spec_message(),
    {
        match self {
            Error::ParseError(m) => m,
            Error::RequestError(m) => m,
        }
    }

    pub open spec fn spec_message(&self) -> Seq<char> {
        match self {
            Error::ParseError(m) => m@,
            Error::RequestError(m) => m@,
        }
    }
}

} // verus!
