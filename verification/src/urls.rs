//! URL recognition for the protocol engine. The pattern matching itself is
//! done by outside crates behind trusted wrappers; everything that depends
//! on their results takes those results as plain values.

use vstd::prelude::*;
use crate::CoordError;
use crate::registry::ContentSource;

verus! {

/// The first substring of the text that matches the URL pattern of the
/// announcement protocol, as the `regex` crate finds it; a function of the
/// text alone.
pub uninterp spec fn url_match_of(s: Seq<char>) -> Option<Seq<char>>;

/// Relies on `regex::Regex::find` over a fixed URL pattern: it returns the
/// leftmost match of the pattern in the text, or nothing.
#[verifier::external_body]
pub(crate) fn find_url_raw(s: &Vec<char>) -> (r: Option<Vec<char>>)
    ensures
        match r {
            Some(u) => url_match_of(s@) == Some(u@),
            None => url_match_of(s@) is None,
        },
{
    let text: String = s.iter().collect();
    let pattern =
        r"https?://(www\.)?[-a-zA-Z0-9@:%._\+~#=]{1,256}\.[a-zA-Z0-9()]{1,6}\b([-a-zA-Z0-9()@:%_\+.~#?&//=]*)";
    match regex::Regex::new(pattern) {
        Ok(re) => re.find(&text).map(|m| m.as_str().chars().collect()),
        Err(_) => None,
    }
}

/// Whether the text is a well-formed absolute URL; a function of the text
/// alone.
pub uninterp spec fn url_parse_ok(s: Seq<char>) -> bool;

/// Relies on `url::Url::parse`: whether it accepts the text.
#[verifier::external_body]
pub(crate) fn parse_url_ok(s: &Vec<char>) -> (r: bool)
    ensures
        r == url_parse_ok(s@),
{
    let text: String = s.iter().collect();
    url::Url::parse(&text).is_ok()
}

/// Builds a browser content source for an explicit create request: the
/// construction fails exactly when the text is not a well-formed URL.
pub fn browser_source(url: Vec<char>) -> (r: Result<ContentSource, CoordError>)
    ensures
        match r {
            Ok(src) => url_parse_ok(url@) && src == (ContentSource::Browser { url }),
            Err(e) => e is ParseFailure && !url_parse_ok(url@),
        },
{
    if parse_url_ok(&url) {
        Ok(ContentSource::Browser { url })
    } else {
        Err(CoordError::ParseFailure)
    }
}

} // verus!
