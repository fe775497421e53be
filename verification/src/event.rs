//! The decoded capture event: one observed network transaction or meta
//! fact, and the auth-evidence test that decides whether an API call is
//! worth keeping.
use vstd::prelude::*;
use crate::strmap::spec_lookup;
use crate::text::{lower, trim, split_on, lemma_split_len, to_chars, lower_chars, chars_eq,
    trim_chars, split_chars};

verus! {

/// One capture event, decoded from the browser collaborator's record.
/// Header lists keep the order in which the record gave them.
pub struct CaptureEvent {
    pub entry_type: String,
    pub url: Option<String>,
    pub method: Option<String>,
    pub timestamp: Option<String>,
    pub request_headers: Option<Vec<(String, String)>>,
    pub response_headers: Option<Vec<(String, String)>>,
    pub request_body: Option<String>,
    pub response_body: Option<String>,
}

/// Meta entries pass the capture filter without an auth check.
pub open spec fn is_meta_type(t: Seq<char>) -> bool {
    t == "ui-action"@ || t == "navigation"@ || t == "cookies"@
}

pub open spec fn is_xhr_start(t: Seq<char>) -> bool {
    t == "xhr-start"@
}

/// The request header names that count as auth evidence.
pub open spec fn auth_header_names() -> Seq<Seq<char>> {
    seq!["authorization"@, "x-csrf-token"@, "x-xsrf-token"@]
}

/// A header name that, lowered, is one of the auth header names.
pub open spec fn is_auth_header_name(n: Seq<char>) -> bool {
    auth_header_names().contains(lower(n))
}

/// The cookie request header, looked up as the record's decoder left
/// it: the exact key `cookie` first, then `Cookie`.
pub open spec fn spec_cookie_header_value(hs: Seq<(Seq<char>, Seq<char>)>) -> Option<Seq<char>> {
    match spec_lookup(hs, "cookie"@) {
        Some(v) => Some(v),
        None => spec_lookup(hs, "Cookie"@),
    }
}

/// The cookie name of one `name=value` fragment: what stands before the
/// first `=`, trimmed.
pub open spec fn cookie_part_name(part: Seq<char>) -> Seq<char> {
    trim(split_on(trim(part), '=')[0])
}

/// The cookie names of a whole cookie header value.
pub open spec fn spec_cookie_names(v: Seq<char>) -> Seq<Seq<char>> {
    split_on(v, ';').map_values(|p: Seq<char>| cookie_part_name(p))
}

/// Whether the cookie header names a known session cookie.
pub open spec fn spec_has_session_cookie(
    hs: Seq<(Seq<char>, Seq<char>)>,
    known: Seq<Seq<char>>,
) -> bool {
    match spec_cookie_header_value(hs) {
        Some(v) => exists|i: int|
            0 <= i < spec_cookie_names(v).len() && known.contains(spec_cookie_names(v)[i]),
        None => false,
    }
}

/// Auth evidence: an auth header, or a cookie whose name matches a
/// previously observed session-cookie name.
pub open spec fn spec_has_auth(e: CaptureEvent, known: Seq<Seq<char>>) -> bool {
    match e.request_headers {
        Some(hs) => {
            let h = hs.deep_view();
            ||| exists|i: int| 0 <= i < h.len() && is_auth_header_name(h[i].0)
            ||| spec_has_session_cookie(h, known)
        },
        None => false,
    }
}

/// Look a header up by its exact name.
pub fn lookup_header<'a>(hs: &'a Vec<(String, String)>, name: &str) -> (r: Option<&'a String>)
    ensures
        match r {
            Some(v) => spec_lookup(hs.deep_view(), name@) == Some(v@),
            None => spec_lookup(hs.deep_view(), name@) is None,
        },
{
    let n = hs.len();
    let ghost dv = hs.deep_view();
    let mut i: usize = 0;
    proof {
        assert(dv.skip(0) =~= dv);
    }
    while i < n
        invariant
            n == hs@.len(),
            dv == hs.deep_view(),
            dv.len() == n,
            i <= n,
            spec_lookup(dv, name@) == spec_lookup(dv.skip(i as int), name@),
        decreases n - i,
    {
        proof {
            assert(dv.skip(i as int)[0] == dv[i as int]);
            assert(dv.skip(i as int).drop_first() =~= dv.skip(i as int + 1));
        }
        let key = to_chars(hs[i].0.as_str());
        let pat = to_chars(name);
        if chars_eq(&key, &pat) {
            assert(dv[i as int].0 == name@);
            return Some(&hs[i].1);
        }
        i = i + 1;
    }
    proof {
        assert(dv.skip(n as int).len() == 0);
    }
    None
}

/// Whether, lowered, `n` is one of the auth header names.
pub fn is_auth_header_name_exec(n: &String) -> (r: bool)
    ensures
        r == is_auth_header_name(n@),
{
    let l = lower_chars(&to_chars(n.as_str()));
    let r = chars_eq(&l, &to_chars("authorization")) || chars_eq(&l, &to_chars("x-csrf-token"))
        || chars_eq(&l, &to_chars("x-xsrf-token"));
    proof {
        if r {
            assert(auth_header_names().contains(lower(n@))) by {
                if l@ == "authorization"@ {
                    assert(auth_header_names()[0] == lower(n@));
                } else if l@ == "x-csrf-token"@ {
                    assert(auth_header_names()[1] == lower(n@));
                } else {
                    assert(auth_header_names()[2] == lower(n@));
                }
            }
        } else {
            if auth_header_names().contains(lower(n@)) {
                let w = choose|w: int|
                    0 <= w < auth_header_names().len() && auth_header_names()[w] == lower(n@);
                assert(w == 0 || w == 1 || w == 2);
            }
        }
    }
    r
}

/// The cookie name of one fragment of a cookie header.
pub fn cookie_part_name_exec(part: &Vec<char>) -> (r: Vec<char>)
    ensures
        r@ == cookie_part_name(part@),
{
    let t = trim_chars(part);
    let ps = split_chars(&t, '=');
    proof {
        lemma_split_len(t@, '=');
        assert(ps.deep_view()[0] == ps@[0]@);
    }
    trim_chars(&ps[0])
}

/// Whether the cookie header value names a known session cookie.
fn has_session_cookie_exec(v: &String, known: &Vec<String>) -> (r: bool)
    ensures
        r == exists|i: int|
            0 <= i < spec_cookie_names(v@).len() && known.deep_view().contains(
                spec_cookie_names(v@)[i],
            ),
{
    let vc = to_chars(v.as_str());
    let parts = split_chars(&vc, ';');
    let ghost names = spec_cookie_names(v@);
    proof {
        assert(names.len() == parts.deep_view().len());
    }
    let mut i: usize = 0;
    while i < parts.len()
        invariant
            i <= parts@.len(),
            parts.deep_view().len() == parts@.len(),
            parts.deep_view() == split_on(v@, ';'),
            names == spec_cookie_names(v@),
            names.len() == parts@.len(),
            forall|k: int| 0 <= k < i ==> !known.deep_view().contains(names[k]),
        decreases parts@.len() - i,
    {
        let name = cookie_part_name_exec(&parts[i]);
        proof {
            assert(parts.deep_view()[i as int] == parts@[i as int]@);
            assert(names[i as int] == cookie_part_name(parts.deep_view()[i as int]));
        }
        let mut j: usize = 0;
        while j < known.len()
            invariant
                j <= known@.len(),
                known.deep_view().len() == known@.len(),
                name@ == names[i as int],
                i < names.len(),
                forall|k: int| 0 <= k < j ==> known.deep_view()[k] != name@,
            decreases known@.len() - j,
        {
            proof {
                assert(known.deep_view()[j as int] == known@[j as int]@);
            }
            let kc = to_chars(known[j].as_str());
            if chars_eq(&name, &kc) {
                proof {
                    assert(known.deep_view()[j as int] == name@);
                    assert(known.deep_view().contains(names[i as int]));
                    assert(names == spec_cookie_names(v@));
                    assert(0 <= i < spec_cookie_names(v@).len() && known.deep_view().contains(
                        spec_cookie_names(v@)[i as int],
                    ));
                }
                return true;
            }
            j = j + 1;
        }
        proof {
            if known.deep_view().contains(name@) {
                let w = choose|w: int|
                    0 <= w < known.deep_view().len() && known.deep_view()[w] == name@;
            }
        }
        i = i + 1;
    }
    false
}

/// Whether the event carries auth evidence: an auth header, or a cookie
/// whose name was previously observed as a session cookie.
pub fn has_auth(e: &CaptureEvent, known_cookies: &Vec<String>) -> (r: bool)
    ensures
        r == spec_has_auth(*e, known_cookies.deep_view()),
{
    let hs = match &e.request_headers {
        Some(hs) => hs,
        None => {
            return false;
        },
    };
    let ghost h = hs.deep_view();
    let n = hs.len();
    let mut i: usize = 0;
    while i < n
        invariant
            n == hs@.len(),
            h == hs.deep_view(),
            h.len() == n,
            i <= n,
            forall|k: int| 0 <= k < i ==> !is_auth_header_name(h[k].0),
        decreases n - i,
    {
        proof {
            assert(h[i as int].0 == hs@[i as int].0@);
        }
        if is_auth_header_name_exec(&hs[i].0) {
            proof {
                assert(is_auth_header_name(h[i as int].0));
            }
            return true;
        }
        i = i + 1;
    }
    let cookie_val = match lookup_header(hs, "cookie") {
        Some(v) => Some(v),
        None => lookup_header(hs, "Cookie"),
    };
    match cookie_val {
        Some(v) => has_session_cookie_exec(v, known_cookies),
        None => false,
    }
}

} // verus!
