//! URLs as text, parsed and resolved by the `url` crate.

use vstd::prelude::*;

verus! {

#[verifier::external_type_specification]
#[verifier::external_body]
pub struct ExParseError(url::ParseError);

/// The serialization of the URL that `url::Url::parse` reads from `text`, or
/// `None` where it reports an error.
pub uninterp spec fn parsed_url(text: Seq<char>) -> Option<Seq<char>>;

/// The serialization of the URL that `url::Url::join` resolves `reference`
/// to against the base URL written as `base`, or `None` where the base or the
/// reference is refused.
pub uninterp spec fn joined_url(base: Seq<char>, reference: Seq<char>) -> Option<Seq<char>>;

/// `url::Url::parse` reads an absolute URL from a string; the URL is handed
/// back as its serialization. What it accepts and how it normalises is the
/// crate's own matter and is only named here.
#[verifier::external_body]
pub(crate) fn parse_url(text: &str) -> (r: Result<String, url::ParseError>)
    ensures
        match r {
            Ok(u) => parsed_url(text@) == Some(u@),
            Err(_) => parsed_url(text@) is None,
        },
{
    url::Url::parse(text).map(String::from)
}

/// `url::Url::join` parses `reference` with the URL written as `base` as its
/// base URL; the outcome is handed back as its serialization.
#[verifier::external_body]
pub(crate) fn join_url(base: &str, reference: &str) -> (r: Option<String>)
    ensures
        match r {
            Some(u) => joined_url(base@, reference@) == Some(u@),
            None => joined_url(base@, reference@) is None,
        },
{
    url::Url::parse(base).and_then(|b| b.join(reference)).map(String::from).ok()
}

/// The `Display` text of a `url::ParseError`.
#[verifier::external_body]
pub(crate) fn parse_error_text(e: &url::ParseError) -> (r: String) {
    e.to_string()
}

} // verus!
