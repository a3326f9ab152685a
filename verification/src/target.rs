//! Addresses as URLs: the base URL of a host, and the address of an outbound
//! request, which is the base URL of the chosen host with the path and query of
//! the inbound request in place of its own.

use url::Url;
use vstd::prelude::*;

verus! {

/// Longest text, in bytes, that is handed to the URL parser.
pub const URL_TEXT_LIMIT: usize = 0x0100_0000;

/// The serialization of the URL that `text` parses to; `None` where `text` is
/// no absolute URL.
pub uninterp spec fn url_form(text: Seq<char>) -> Option<Seq<char>>;

/// The serialization of the URL `base` after its path was set to `path`;
/// `None` where `base` is no absolute URL.
pub uninterp spec fn path_replaced(base: Seq<char>, path: Seq<char>) -> Option<Seq<char>>;

/// The serialization of the URL `base` after its query was set to `query`, or
/// cleared for `None`; `None` where `base` is no absolute URL.
pub uninterp spec fn query_replaced(base: Seq<char>, query: Option<Seq<char>>) -> Option<
    Seq<char>,
>;

/// Length in bytes of the UTF-8 form of `text`, as `str::len` reports it.
pub open spec fn byte_len(text: Seq<char>) -> usize {
    vstd::utf8::encode_utf8(text).len() as usize
}

/// The text is short enough for the URL parser.
pub open spec fn fits_parser(text: Seq<char>) -> bool {
    byte_len(text) <= URL_TEXT_LIMIT
}

/// Trusted. Parses `text` with `url::Url::parse` and returns the URL's
/// serialization. The contract claims that the outcome depends on the text
/// alone.
#[verifier::external_body]
pub(crate) fn parsed_url(text: &str) -> (out: Option<String>)
    ensures
        match out {
            Some(url) => url_form(text@) == Some(url@),
            None => url_form(text@) is None,
        },
{
    Url::parse(text).ok().map(String::from)
}

/// Trusted. Parses `base` with `url::Url::parse`, calls `Url::set_path` with
/// `path` and returns the URL's serialization. The contract claims that the
/// outcome depends on the two texts alone. Both calls index the serialization
/// with 32 bits; the bound on the texts keeps it far below that.
#[verifier::external_body]
fn url_with_path(base: &str, path: &str) -> (out: Option<String>)
    requires
        fits_parser(base@),
        fits_parser(path@),
    ensures
        match out {
            Some(text) => path_replaced(base@, path@) == Some(text@),
            None => path_replaced(base@, path@) is None,
        },
{
    let mut url = Url::parse(base).ok()?;
    url.set_path(path);
    Some(url.into())
}

/// Trusted. Parses `base` with `url::Url::parse`, calls `Url::set_query` with
/// `query` and returns the URL's serialization. The contract claims that the
/// outcome depends on the two texts alone. Both calls index the serialization
/// with 32 bits; the bound on the texts keeps it far below that.
#[verifier::external_body]
fn url_with_query(base: &str, query: Option<&str>) -> (out: Option<String>)
    requires
        fits_parser(base@),
        query matches Some(q) ==> fits_parser(q@),
    ensures
        match out {
            Some(text) => query_replaced(base@, query_text(query)) == Some(text@),
            None => query_replaced(base@, query_text(query)) is None,
        },
{
    let mut url = Url::parse(base).ok()?;
    url.set_query(query);
    Some(url.into())
}

/// The characters of an optional text.
pub open spec fn query_text(query: Option<&str>) -> Option<Seq<char>> {
    match query {
        Some(q) => Some(q@),
        None => None,
    }
}

/// The outbound address for a host at `base` and an inbound request for `path`
/// and `query`; `None` where `base` is no absolute URL or a text is too long
/// for the parser.
pub open spec fn target_of(base: Seq<char>, path: Seq<char>, query: Option<Seq<char>>) -> Option<
    Seq<char>,
> {
    if !fits_parser(base) || !fits_parser(path) || (query matches Some(q) && !fits_parser(q)) {
        None
    } else {
        match path_replaced(base, path) {
            Some(with_path) => if fits_parser(with_path) {
                query_replaced(with_path, query)
            } else {
                None
            },
            None => None,
        }
    }
}

/// Builds the outbound address: the URL `base` with `path` as its path and
/// `query` as its query.
pub fn target_url(base: &str, path: &str, query: Option<&str>) -> (out: Option<String>)
    ensures
        match out {
            Some(text) => target_of(base@, path@, query_text(query)) == Some(text@),
            None => target_of(base@, path@, query_text(query)) is None,
        },
{
    if base.len() > URL_TEXT_LIMIT || path.len() > URL_TEXT_LIMIT {
        return None;
    }
    if let Some(q) = query {
        if q.len() > URL_TEXT_LIMIT {
            return None;
        }
    }
    match url_with_path(base, path) {
        Some(with_path) => {
            if with_path.as_str().len() > URL_TEXT_LIMIT {
                None
            } else {
                url_with_query(with_path.as_str(), query)
            }
        },
        None => None,
    }
}

} // verus!
