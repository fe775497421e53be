//! The one place the library leans on the `url` crate: parsing an
//! absolute URL into its host, path and query parameter names.
use vstd::prelude::*;

verus! {

/// What parsing a URL yields: the host (if any), the percent-encoded
/// path, and the decoded query parameter names in order; `None` when
/// the string is not an absolute URL.  The result is a function of the
/// input string alone.
pub uninterp spec fn url_parse_of(s: Seq<char>) -> Option<
    (Option<Seq<char>>, Seq<char>, Seq<Seq<char>>),
>;

/// The host of an absolute URL, when it has one.
pub open spec fn url_host_of(s: Seq<char>) -> Option<Seq<char>> {
    match url_parse_of(s) {
        Some(t) => t.0,
        None => None,
    }
}

/// The path of an absolute URL.
pub open spec fn url_path_of(s: Seq<char>) -> Option<Seq<char>> {
    match url_parse_of(s) {
        Some(t) => Some(t.1),
        None => None,
    }
}

/// The query parameter names of an absolute URL, in order.
pub open spec fn url_query_names_of(s: Seq<char>) -> Option<Seq<Seq<char>>> {
    match url_parse_of(s) {
        Some(t) => Some(t.2),
        None => None,
    }
}

/// The components of one parsed URL.
pub struct UrlParts {
    pub host: Option<String>,
    pub path: String,
    pub query_names: Vec<String>,
}

/// Relies on `url::Url::parse` together with `Url::host_str`,
/// `Url::path` and `Url::query_pairs`: parsing either fails, or yields
/// the URL's host (absent for URLs that cannot have one), its
/// percent-encoded path, and its decoded query parameter names in
/// order.
#[verifier::external_body]
pub fn parse_url(s: &str) -> (r: Option<UrlParts>)
    ensures
        match r {
            Some(p) => {
                &&& url_parse_of(s@) is Some
                &&& {
                    let t = url_parse_of(s@)->Some_0;
                    &&& match p.host {
                        Some(h) => t.0 == Some(h@),
                        None => t.0 is None,
                    }
                    &&& p.path@ == t.1
                    &&& p.query_names.deep_view() == t.2
                }
            },
            None => url_parse_of(s@) is None,
        },
{
    match url::Url::parse(s) {
        Ok(u) => Some(
            UrlParts {
                host: u.host_str().map(|h| h.to_string()),
                path: u.path().to_string(),
                query_names: u.query_pairs().map(|(k, _)| k.into_owned()).collect(),
            },
        ),
        Err(_) => None,
    }
}

/// The host of `s`, when `s` is an absolute URL with a host.
pub fn url_host(s: &str) -> (r: Option<String>)
    ensures
        match r {
            Some(h) => url_host_of(s@) == Some(h@),
            None => url_host_of(s@) is None,
        },
{
    match parse_url(s) {
        Some(p) => p.host,
        None => None,
    }
}

} // verus!
