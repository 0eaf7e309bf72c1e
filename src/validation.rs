//! Validation of submitted URLs.
use vstd::prelude::*;

verus! {

#[verifier::external_type_specification]
#[verifier::external_body]
pub struct ExParseError(url::ParseError);

/// What `url::Url::parse` makes of an input: the serialization of the parsed
/// absolute URL, or nothing when the input is refused.
pub uninterp spec fn url_parse(s: Seq<char>) -> Option<Seq<char>>;

/// Relies on `url::Url::parse`, which either parses an absolute URL or returns
/// a `ParseError`; `String::from` on the parsed `Url` hands back its
/// serialization.
#[verifier::external_body]
fn parse_url(raw: &str) -> (r: Result<String, url::ParseError>)
    ensures
        r is Ok <==> url_parse(raw@) is Some,
        r is Ok ==> r->Ok_0@ == url_parse(raw@)->Some_0,
{
    match url::Url::parse(raw) {
        Ok(u) => Ok(String::from(u)),
        Err(e) => Err(e),
    }
}

/// A submitted string that is not a valid absolute URL.
pub struct InvalidUrlError {
    /// Why the parser refused the input.
    pub reason: url::ParseError,
}

/// Checks that `raw` is an absolute URL and returns its canonical form, the
/// key under which the registry files it.
pub fn validate(raw: &str) -> (r: Result<String, InvalidUrlError>)
    ensures
        r is Ok <==> url_parse(raw@) is Some,
        r is Ok ==> r->Ok_0@ == url_parse(raw@)->Some_0,
{
    match parse_url(raw) {
        Ok(canonical) => Ok(canonical),
        Err(reason) => Err(InvalidUrlError { reason }),
    }
}

} // verus!
