use vstd::prelude::*;
use crate::error::Error;

verus! {

/// The result of parsing `s` as an absolute URL: `Some` of the normalized
/// serialization when `s` is a syntactically valid absolute URL, `None`
/// otherwise. The value is determined by `s` alone.
pub uninterp spec fn url_parse(s: Seq<char>) -> Option<Seq<char>>;

/// The result of resolving the reference `rel` against the absolute URL
/// written in `base`: `Some` of the serialization of the resolved absolute
/// URL, `None` when `base` does not parse or `rel` cannot be resolved
/// against it. The value is determined by `base` and `rel` alone.
pub uninterp spec fn url_join(base: Seq<char>, rel: Seq<char>) -> Option<Seq<char>>;

/// Relies on `url::Url::parse` and `url::Url::as_str`: parses an absolute
/// URL from a string and returns its serialization; fails exactly on input
/// that is not a valid absolute URL, without any I/O.
#[verifier::external_body]
pub(crate) fn parse_abs_url(s: &str) -> (r: Option<String>)
    ensures
        match r {
            Some(u) => url_parse(s@) == Some(u@),
            None => url_parse(s@) is None,
        },
{
    match url::Url::parse(s) {
        Ok(u) => Some(String::from(u.as_str())),
        Err(_) => None,
    }
}

/// Relies on `url::Url::join` (and `url::Url::parse` to read the base):
/// resolves a possibly relative reference against a base URL and returns
/// the serialization of the resolved absolute URL, without any I/O.
#[verifier::external_body]
pub(crate) fn join_abs_url(base: &str, rel: &str) -> (r: Option<String>)
    ensures
        match r {
            Some(u) => url_join(base@, rel@) == Some(u@),
            None => url_join(base@, rel@) is None,
        },
{
    match url::Url::parse(base) {
        Ok(b) => match b.join(rel) {
            Ok(u) => Some(String::from(u.as_str())),
            Err(_) => None,
        },
        Err(_) => None,
    }
}

/// The URL Resolver: normalizes a raw string into a validated absolute URL.
/// Fails with a `ParseError`, locally and synchronously, exactly when the
/// input is not a syntactically valid absolute URL.
pub fn resolve_page_url(raw: &str) -> (r: Result<String, Error>)
    ensures
        match r {
            Ok(u) => url_parse(raw@) == Some(u@),
            Err(e) => url_parse(raw@) is None && e is ParseError,
        },
{
    match parse_abs_url(raw) {
        Some(u) => Ok(u),
        None => Err(Error::ParseError("not a valid absolute URL".to_owned())),
    }
}

} // verus!
