//! The static noise blocklist: analytics and tracking domains, static
//! asset extensions, and telemetry path fragments whose traffic is
//! never worth capturing.
use vstd::prelude::*;
use crate::text::{lower, contains_seq, ends_with, split_on, lemma_split_len, to_chars, lower_chars, contains_chars, ends_with_chars, split_chars};

verus! {

/// Analytics and tracking domains (or domain-path prefixes).
pub open spec fn noise_domains() -> Seq<Seq<char>> {
    seq![
        "google-analytics.com"@,
        "doubleclick.net"@,
        "googletagmanager.com"@,
        "facebook.com/tr"@,
        "play.google.com/log"@,
        "accounts.google.com/ListAccounts"@,
        "apis.google.com/js/"@,
        "www.gstatic.com"@,
        "fonts.googleapis.com"@,
        "fonts.gstatic.com"@,
        "ssl.gstatic.com"@,
    ]
}

/// Static asset extensions, matched against the path only.
pub open spec fn noise_extensions() -> Seq<Seq<char>> {
    seq![".js"@, ".css"@, ".png"@, ".jpg"@, ".gif"@, ".svg"@, ".woff"@, ".woff2"@, ".ico"@]
}

/// Tracking and telemetry path fragments.
pub open spec fn noise_path_patterns() -> Seq<Seq<char>> {
    seq!["/log?"@, "/beacon"@, "/pixel"@, "/analytics"@, "/telemetry"@, "/collect?"@]
}

/// Whether any of `pats` occurs in `s`.
pub open spec fn any_contained(s: Seq<char>, pats: Seq<Seq<char>>) -> bool {
    exists|i: int| 0 <= i < pats.len() && contains_seq(s, pats[i])
}

/// Whether any of `pats` is a suffix of `s`.
pub open spec fn any_suffix(s: Seq<char>, pats: Seq<Seq<char>>) -> bool {
    exists|i: int| 0 <= i < pats.len() && ends_with(s, pats[i])
}

/// A URL is noise when, after lowering, it holds a noise domain, its
/// path (the part before any query string) ends in a static asset
/// extension, or it holds a tracking path fragment.
pub open spec fn spec_should_skip(url: Seq<char>) -> bool {
    let l = lower(url);
    let path_part = split_on(l, '?')[0];
    ||| any_contained(l, noise_domains())
    ||| any_suffix(path_part, noise_extensions())
    ||| any_contained(l, noise_path_patterns())
}

fn noise_domains_exec() -> (r: Vec<Vec<char>>)
    ensures
        r.deep_view() == noise_domains(),
{
    let mut r: Vec<Vec<char>> = Vec::new();
    r.push(to_chars("google-analytics.com"));
    r.push(to_chars("doubleclick.net"));
    r.push(to_chars("googletagmanager.com"));
    r.push(to_chars("facebook.com/tr"));
    r.push(to_chars("play.google.com/log"));
    r.push(to_chars("accounts.google.com/ListAccounts"));
    r.push(to_chars("apis.google.com/js/"));
    r.push(to_chars("www.gstatic.com"));
    r.push(to_chars("fonts.googleapis.com"));
    r.push(to_chars("fonts.gstatic.com"));
    r.push(to_chars("ssl.gstatic.com"));
    proof {
        assert(r.deep_view() =~~= noise_domains());
    }
    r
}

fn noise_extensions_exec() -> (r: Vec<Vec<char>>)
    ensures
        r.deep_view() == noise_extensions(),
{
    let mut r: Vec<Vec<char>> = Vec::new();
    r.push(to_chars(".js"));
    r.push(to_chars(".css"));
    r.push(to_chars(".png"));
    r.push(to_chars(".jpg"));
    r.push(to_chars(".gif"));
    r.push(to_chars(".svg"));
    r.push(to_chars(".woff"));
    r.push(to_chars(".woff2"));
    r.push(to_chars(".ico"));
    proof {
        assert(r.deep_view() =~~= noise_extensions());
    }
    r
}

fn noise_path_patterns_exec() -> (r: Vec<Vec<char>>)
    ensures
        r.deep_view() == noise_path_patterns(),
{
    let mut r: Vec<Vec<char>> = Vec::new();
    r.push(to_chars("/log?"));
    r.push(to_chars("/beacon"));
    r.push(to_chars("/pixel"));
    r.push(to_chars("/analytics"));
    r.push(to_chars("/telemetry"));
    r.push(to_chars("/collect?"));
    proof {
        assert(r.deep_view() =~~= noise_path_patterns());
    }
    r
}

fn any_contained_exec(s: &Vec<char>, pats: &Vec<Vec<char>>) -> (r: bool)
    ensures
        r == any_contained(s@, pats.deep_view()),
{
    let mut i: usize = 0;
    while i < pats.len()
        invariant
            i <= pats@.len(),
            pats.deep_view().len() == pats@.len(),
            forall|k: int| 0 <= k < i ==> !contains_seq(s@, pats.deep_view()[k]),
        decreases pats@.len() - i,
    {
        assert(pats.deep_view()[i as int] == pats@[i as int]@);
        if contains_chars(s, &pats[i]) {
            return true;
        }
        i = i + 1;
    }
    false
}

fn any_suffix_exec(s: &Vec<char>, pats: &Vec<Vec<char>>) -> (r: bool)
    ensures
        r == any_suffix(s@, pats.deep_view()),
{
    let mut i: usize = 0;
    while i < pats.len()
        invariant
            i <= pats@.len(),
            pats.deep_view().len() == pats@.len(),
            forall|k: int| 0 <= k < i ==> !ends_with(s@, pats.deep_view()[k]),
        decreases pats@.len() - i,
    {
        assert(pats.deep_view()[i as int] == pats@[i as int]@);
        if ends_with_chars(s, &pats[i]) {
            return true;
        }
        i = i + 1;
    }
    false
}

/// Whether the URL matches the static noise blocklist and should be
/// skipped.
pub fn should_skip_capture(url: &str) -> (r: bool)
    ensures
        r == spec_should_skip(url@),
{
    let cs = to_chars(url);
    let l = lower_chars(&cs);
    if any_contained_exec(&l, &noise_domains_exec()) {
        return true;
    }
    let qparts = split_chars(&l, '?');
    proof {
        lemma_split_len(l@, '?');
        assert(qparts.deep_view()[0] == qparts@[0]@);
    }
    if any_suffix_exec(&qparts[0], &noise_extensions_exec()) {
        return true;
    }
    any_contained_exec(&l, &noise_path_patterns_exec())
}

/// The same noise test, on a character vector already in hand.
pub fn should_skip_chars(urlc: &Vec<char>) -> (r: bool)
    ensures
        r == spec_should_skip(urlc@),
{
    let l = lower_chars(urlc);
    if any_contained_exec(&l, &noise_domains_exec()) {
        return true;
    }
    let qparts = split_chars(&l, '?');
    proof {
        lemma_split_len(l@, '?');
        assert(qparts.deep_view()[0] == qparts@[0]@);
    }
    if any_suffix_exec(&qparts[0], &noise_extensions_exec()) {
        return true;
    }
    any_contained_exec(&l, &noise_path_patterns_exec())
}

} // verus!
