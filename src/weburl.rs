//! URLs as the `url` crate reads them, reduced to plain values.
use vstd::prelude::*;
use crate::token::opt_view;

verus! {

/// What `url::Url` reports of a text: scheme, user name, host, path
/// segments (`None` for a URL that cannot be a base), the serialized URL,
/// and the percent- and plus-decoded query pairs in order; `None` if the
/// text does not parse as an absolute URL.
pub uninterp spec fn url_parts_of(text: Seq<char>) -> Option<(
    Seq<char>,
    Seq<char>,
    Option<Seq<char>>,
    Option<Seq<Seq<char>>>,
    Seq<char>,
    Seq<(Seq<char>, Seq<char>)>,
)>;

/// A URL's parts in plain values.
pub struct UrlParts {
    pub scheme: String,
    pub username: String,
    pub host: Option<String>,
    pub segments: Option<Vec<String>>,
    pub serialized: String,
    pub query: Vec<(String, String)>,
}

/// The characters of each pair of strings.
pub open spec fn pairs_view(v: Seq<(String, String)>) -> Seq<(Seq<char>, Seq<char>)> {
    v.map_values(|p: (String, String)| (p.0@, p.1@))
}

/// The model of a `UrlParts`.
pub open spec fn parts_view(p: UrlParts) -> (
    Seq<char>,
    Seq<char>,
    Option<Seq<char>>,
    Option<Seq<Seq<char>>>,
    Seq<char>,
    Seq<(Seq<char>, Seq<char>)>,
) {
    (p.scheme@, p.username@, opt_view(p.host), crate::provider::opt_names_view(p.segments), p.serialized@, pairs_view(p.query@))
}

/// Relies on `url::Url::parse` and the accessors `scheme`, `username`,
/// `host_str`, `path_segments`, `as_str` and `query_pairs`.
#[verifier::external_body]
pub(crate) fn parse_url_parts(text: &str) -> (r: Option<UrlParts>)
    ensures
        match r {
            Some(p) => url_parts_of(text@) == Some(parts_view(p)),
            None => url_parts_of(text@) is None,
        },
{
    match url::Url::parse(text) {
        Ok(u) => Some(UrlParts {
            scheme: u.scheme().to_string(),
            username: u.username().to_string(),
            host: u.host_str().map(String::from),
            segments: u.path_segments().map(|s| s.map(String::from).collect()),
            serialized: u.as_str().to_string(),
            query: u.query_pairs().into_owned().collect(),
        }),
        Err(_) => None,
    }
}

} // verus!
