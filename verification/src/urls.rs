//! Address parsing and reference resolution, delegated to the `url` crate.
//!
//! An address is carried around as its exact serialization; the two spec
//! functions below name what the `url` crate computes from the input strings.

use vstd::prelude::*;

verus! {

/// The serialization of `s` parsed as an absolute URL, if it parses.
pub uninterp spec fn parsed_url(s: Seq<char>) -> Option<Seq<char>>;

/// The serialization of `link` resolved against the base URL serialized as
/// `base`, if `base` parses as an absolute URL and the resolution succeeds.
pub uninterp spec fn joined_url(base: Seq<char>, link: Seq<char>) -> Option<Seq<char>>;

/// How one captured link becomes an address to crawl: kept as-is when it is an
/// absolute address on its own, otherwise resolved against the page's base
/// address, otherwise discarded.
pub open spec fn resolve_link(base: Seq<char>, link: Seq<char>) -> Option<Seq<char>> {
    match parsed_url(link) {
        Some(u) => Some(u),
        None => joined_url(base, link),
    }
}

/// Relies on `url::Url::parse`: whether a string parses as an absolute URL, and
/// the serialization of the result, depend on the input string alone.
#[verifier::external_body]
pub(crate) fn parse_url(s: &str) -> (r: Option<String>)
    ensures
        (match r {
            Some(u) => parsed_url(s@) == Some(u@),
            None => parsed_url(s@) is None,
        }),
{
    match url::Url::parse(s) {
        Ok(u) => Some(String::from(u)),
        Err(_) => None,
    }
}

/// Relies on `url::Url::parse` and `url::Url::join`: resolution of a link
/// against a base URL; the outcome depends on the two input strings alone.
#[verifier::external_body]
pub(crate) fn join_url(base: &str, link: &str) -> (r: Option<String>)
    ensures
        (match r {
            Some(u) => joined_url(base@, link@) == Some(u@),
            None => joined_url(base@, link@) is None,
        }),
{
    let joined = match url::Url::parse(base) {
        Ok(b) => b.join(link),
        Err(e) => Err(e),
    };
    match joined {
        Ok(u) => Some(String::from(u)),
        Err(_) => None,
    }
}

} // verus!
