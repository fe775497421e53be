//! The session snapshot: the latest known authentication materials for
//! an app, merged from every admitted request that carries auth or
//! cookie headers.
use vstd::prelude::*;
use crate::strmap::{StrMap, spec_upsert};
use crate::text::{lower, trim, split_on, join_with, contains_seq, lemma_split_len, to_chars,
    lower_chars, chars_eq, trim_chars, split_chars, join_from, chars_to_string, contains_chars};

verus! {

/// The current credential snapshot of one app: last write wins, no
/// history.
pub struct SessionData {
    pub domain: String,
    pub captured_at: String,
    pub cookies: StrMap,
    pub auth_headers: StrMap,
    pub csrf_tokens: StrMap,
    pub user_agent: String,
}

impl SessionData {
    /// An empty snapshot, used when none is on disk yet.
    pub fn new() -> (r: SessionData)
        ensures
            r.domain@ == Seq::<char>::empty(),
            r.captured_at@ == Seq::<char>::empty(),
            r.cookies@ == Seq::<(Seq<char>, Seq<char>)>::empty(),
            r.auth_headers@ == Seq::<(Seq<char>, Seq<char>)>::empty(),
            r.csrf_tokens@ == Seq::<(Seq<char>, Seq<char>)>::empty(),
            r.user_agent@ == Seq::<char>::empty(),
    {
        SessionData {
            domain: String::new(),
            captured_at: String::new(),
            cookies: StrMap::new(),
            auth_headers: StrMap::new(),
            csrf_tokens: StrMap::new(),
            user_agent: String::new(),
        }
    }
}

/// The header names whose presence triggers a session update: the auth
/// headers and the cookie header.
pub open spec fn is_session_trigger_name(n: Seq<char>) -> bool {
    crate::event::is_auth_header_name(n) || lower(n) == "cookie"@
}

/// Whether an event's request headers trigger a session update.
pub open spec fn spec_session_triggers(hs: Seq<(Seq<char>, Seq<char>)>) -> bool {
    exists|i: int| 0 <= i < hs.len() && is_session_trigger_name(hs[i].0)
}

/// Whether these request headers trigger a session update.
pub fn session_triggers(hs: &Vec<(String, String)>) -> (r: bool)
    ensures
        r == spec_session_triggers(hs.deep_view()),
{
    let ghost dv = hs.deep_view();
    let mut i: usize = 0;
    while i < hs.len()
        invariant
            i <= hs@.len(),
            dv.len() == hs@.len(),
            forall|k: int| 0 <= k < i ==> !is_session_trigger_name(dv[k].0),
        decreases hs@.len() - i,
    {
        proof {
            assert(dv[i as int].0 == hs@[i as int].0@);
        }
        let is_auth = crate::event::is_auth_header_name_exec(&hs[i].0);
        let l = lower_chars(&to_chars(hs[i].0.as_str()));
        if is_auth || chars_eq(&l, &to_chars("cookie")) {
            proof {
                assert(is_session_trigger_name(dv[i as int].0));
            }
            return true;
        }
        i = i + 1;
    }
    false
}

/// One `name=value` cookie fragment: the part is trimmed, split on the
/// first `=`, and both sides are trimmed; a fragment without `=` is
/// skipped.
pub open spec fn cookie_pair_of(part: Seq<char>) -> Option<(Seq<char>, Seq<char>)> {
    let t = trim(part);
    let ps = split_on(t, '=');
    if ps.len() >= 2 {
        Some((trim(ps[0]), trim(join_with(ps.drop_first(), '='))))
    } else {
        None
    }
}

/// Decode one cookie fragment.
pub fn cookie_pair_exec(part: &Vec<char>) -> (r: Option<(Vec<char>, Vec<char>)>)
    ensures
        match r {
            Some(p) => cookie_pair_of(part@) == Some((p.0@, p.1@)),
            None => cookie_pair_of(part@) is None,
        },
{
    let t = trim_chars(part);
    let ps = split_chars(&t, '=');
    proof {
        lemma_split_len(t@, '=');
        assert(ps.deep_view()[0] == ps@[0]@);
    }
    if ps.len() >= 2 {
        let name = trim_chars(&ps[0]);
        let tail = join_from(&ps, 1, '=');
        let value = trim_chars(&tail);
        proof {
            assert(ps.deep_view().skip(1) =~= ps.deep_view().drop_first());
        }
        Some((name, value))
    } else {
        None
    }
}

/// The cookie map after merging the fragments of one cookie header
/// value, front to back.
pub open spec fn spec_merge_parts(
    m: Seq<(Seq<char>, Seq<char>)>,
    parts: Seq<Seq<char>>,
) -> Seq<(Seq<char>, Seq<char>)>
    decreases parts.len(),
{
    if parts.len() == 0 {
        m
    } else {
        let m1 = match cookie_pair_of(parts[0]) {
            Some(p) => spec_upsert(m, p.0, p.1),
            None => m,
        };
        spec_merge_parts(m1, parts.drop_first())
    }
}

/// The cookie names of one cookie header value that parse as pairs, in
/// order.
pub open spec fn spec_part_names(parts: Seq<Seq<char>>) -> Seq<Seq<char>>
    decreases parts.len(),
{
    if parts.len() == 0 {
        Seq::empty()
    } else {
        let head: Seq<Seq<char>> = match cookie_pair_of(parts[0]) {
            Some(p) => seq![p.0],
            None => Seq::empty(),
        };
        head + spec_part_names(parts.drop_first())
    }
}

/// The cookie map after merging a whole cookie header value.
pub open spec fn spec_merge_cookie_value(
    m: Seq<(Seq<char>, Seq<char>)>,
    v: Seq<char>,
) -> Seq<(Seq<char>, Seq<char>)> {
    spec_merge_parts(m, split_on(v, ';'))
}

/// The cookie map after the cookie headers of a request, front to back.
pub open spec fn spec_cookies_after(
    m: Seq<(Seq<char>, Seq<char>)>,
    hs: Seq<(Seq<char>, Seq<char>)>,
) -> Seq<(Seq<char>, Seq<char>)>
    decreases hs.len(),
{
    if hs.len() == 0 {
        m
    } else {
        let m1 = if lower(hs[0].0) == "cookie"@ {
            spec_merge_cookie_value(m, hs[0].1)
        } else {
            m
        };
        spec_cookies_after(m1, hs.drop_first())
    }
}

/// The newly observed cookie names of a request, in order.
pub open spec fn spec_new_names_after(hs: Seq<(Seq<char>, Seq<char>)>) -> Seq<Seq<char>>
    decreases hs.len(),
{
    if hs.len() == 0 {
        Seq::empty()
    } else {
        let head: Seq<Seq<char>> = if lower(hs[0].0) == "cookie"@ {
            spec_part_names(split_on(hs[0].1, ';'))
        } else {
            Seq::empty()
        };
        head + spec_new_names_after(hs.drop_first())
    }
}

/// The auth header map after a request: every auth header merged
/// verbatim, under its original name.
pub open spec fn spec_auth_after(
    m: Seq<(Seq<char>, Seq<char>)>,
    hs: Seq<(Seq<char>, Seq<char>)>,
) -> Seq<(Seq<char>, Seq<char>)>
    decreases hs.len(),
{
    if hs.len() == 0 {
        m
    } else {
        let m1 = if crate::event::is_auth_header_name(hs[0].0) {
            spec_upsert(m, hs[0].0, hs[0].1)
        } else {
            m
        };
        spec_auth_after(m1, hs.drop_first())
    }
}

/// The csrf token map after a response: every response header whose
/// lowered name holds `csrf` or `xsrf` is merged.
pub open spec fn is_csrf_name(n: Seq<char>) -> bool {
    contains_seq(lower(n), "csrf"@) || contains_seq(lower(n), "xsrf"@)
}

pub open spec fn spec_csrf_after(
    m: Seq<(Seq<char>, Seq<char>)>,
    hs: Seq<(Seq<char>, Seq<char>)>,
) -> Seq<(Seq<char>, Seq<char>)>
    decreases hs.len(),
{
    if hs.len() == 0 {
        m
    } else {
        let m1 = if is_csrf_name(hs[0].0) {
            spec_upsert(m, hs[0].0, hs[0].1)
        } else {
            m
        };
        spec_csrf_after(m1, hs.drop_first())
    }
}

/// Merge one cookie header value into the cookie map, returning the
/// parsed names.
pub fn merge_cookie_value(cookies: &mut StrMap, v: &String, names: &mut Vec<String>)
    ensures
        final(cookies)@ == spec_merge_cookie_value(old(cookies)@, v@),
        final(names).deep_view() == old(names).deep_view() + spec_part_names(split_on(v@, ';')),
{
    let vc = to_chars(v.as_str());
    let parts = split_chars(&vc, ';');
    let ghost pv = parts.deep_view();
    let mut i: usize = 0;
    proof {
        assert(pv.skip(0) =~= pv);
        assert(old(names).deep_view() + Seq::<Seq<char>>::empty() =~= old(names).deep_view());
    }
    while i < parts.len()
        invariant
            i <= parts@.len(),
            pv.len() == parts@.len(),
            pv == parts.deep_view(),
            spec_merge_parts(old(cookies)@, pv) == spec_merge_parts(cookies@, pv.skip(i as int)),
            names.deep_view() + spec_part_names(pv.skip(i as int)) == old(names).deep_view()
                + spec_part_names(pv),
        decreases parts@.len() - i,
    {
        let ghost pre = pv.skip(i as int);
        proof {
            assert(pre[0] == pv[i as int]);
            assert(pv[i as int] == parts@[i as int]@);
            assert(pre.drop_first() =~= pv.skip(i as int + 1));
        }
        match cookie_pair_exec(&parts[i]) {
            Some(p) => {
                let ghost n0 = p.0@;
                let ghost before_names = names.deep_view();
                let name_s = chars_to_string(&p.0);
                let value_s = chars_to_string(&p.1);
                let name_s2 = chars_to_string(&p.0);
                cookies.insert(name_s, value_s);
                names.push(name_s2);
                proof {
                    assert(names.deep_view() =~~= before_names.push(n0));
                    assert(before_names.push(n0) + spec_part_names(pv.skip(i as int + 1)) =~= (
                    before_names + (seq![n0] + spec_part_names(pre.drop_first()))));
                }
            },
            None => {
                proof {
                    assert(spec_part_names(pre) =~= spec_part_names(pre.drop_first()));
                    assert(names.deep_view() + spec_part_names(pre.drop_first()) =~= names.deep_view()
                        + spec_part_names(pre));
                }
            },
        }
        i = i + 1;
    }
    proof {
        assert(pv.skip(parts@.len() as int).len() == 0);
        assert(names.deep_view() + spec_part_names(pv.skip(i as int)) =~= names.deep_view());
    }
}

/// Merge one admitted request into the snapshot: overwrite the domain,
/// capture time and user agent; merge cookie pairs, auth headers and
/// response csrf headers; return every cookie name seen, for the
/// process-wide session-cookie set.
pub fn update_session_data(
    session: &mut SessionData,
    domain: &str,
    captured_at: &str,
    user_agent: &str,
    req_headers: &Vec<(String, String)>,
    resp_headers: &Vec<(String, String)>,
) -> (new_names: Vec<String>)
    ensures
        final(session).domain@ == domain@,
        final(session).captured_at@ == captured_at@,
        final(session).user_agent@ == user_agent@,
        final(session).cookies@ == spec_cookies_after(old(session).cookies@, req_headers.deep_view()),
        final(session).auth_headers@ == spec_auth_after(
            old(session).auth_headers@,
            req_headers.deep_view(),
        ),
        final(session).csrf_tokens@ == spec_csrf_after(
            old(session).csrf_tokens@,
            resp_headers.deep_view(),
        ),
        new_names.deep_view() == spec_new_names_after(req_headers.deep_view()),
{
    session.domain = chars_to_string(&to_chars(domain));
    session.captured_at = chars_to_string(&to_chars(captured_at));
    session.user_agent = chars_to_string(&to_chars(user_agent));

    let ghost hv = req_headers.deep_view();
    let mut names: Vec<String> = Vec::new();
    let mut i: usize = 0;
    proof {
        assert(hv.skip(0) =~= hv);
        assert(names.deep_view() =~~= Seq::<Seq<char>>::empty());
        assert(Seq::<Seq<char>>::empty() + spec_new_names_after(hv) =~= spec_new_names_after(hv));
    }
    while i < req_headers.len()
        invariant
            i <= req_headers@.len(),
            hv.len() == req_headers@.len(),
            hv == req_headers.deep_view(),
            spec_cookies_after(old(session).cookies@, hv) == spec_cookies_after(
                session.cookies@,
                hv.skip(i as int),
            ),
            names.deep_view() + spec_new_names_after(hv.skip(i as int)) == spec_new_names_after(hv),
            session.domain@ == domain@,
            session.captured_at@ == captured_at@,
            session.user_agent@ == user_agent@,
            session.auth_headers@ == old(session).auth_headers@,
            session.csrf_tokens@ == old(session).csrf_tokens@,
        decreases req_headers@.len() - i,
    {
        let ghost pre = hv.skip(i as int);
        proof {
            assert(pre[0] == hv[i as int]);
            assert(hv[i as int] == (req_headers@[i as int].0@, req_headers@[i as int].1@));
            assert(pre.drop_first() =~= hv.skip(i as int + 1));
        }
        let l = lower_chars(&to_chars(req_headers[i].0.as_str()));
        if chars_eq(&l, &to_chars("cookie")) {
            let ghost before_names = names.deep_view();
            merge_cookie_value(&mut session.cookies, &req_headers[i].1, &mut names);
            proof {
                assert(before_names + (spec_part_names(split_on(pre[0].1, ';'))
                    + spec_new_names_after(pre.drop_first())) =~= (before_names + spec_part_names(
                    split_on(pre[0].1, ';'),
                )) + spec_new_names_after(pre.drop_first()));
            }
        }
        i = i + 1;
    }
    proof {
        assert(hv.skip(req_headers@.len() as int).len() == 0);
        assert(names.deep_view() + Seq::<Seq<char>>::empty() =~= names.deep_view());
    }

    let mut j: usize = 0;
    while j < req_headers.len()
        invariant
            j <= req_headers@.len(),
            hv.len() == req_headers@.len(),
            hv == req_headers.deep_view(),
            spec_auth_after(old(session).auth_headers@, hv) == spec_auth_after(
                session.auth_headers@,
                hv.skip(j as int),
            ),
            session.cookies@ == spec_cookies_after(old(session).cookies@, hv),
            names.deep_view() == spec_new_names_after(hv),
            session.domain@ == domain@,
            session.captured_at@ == captured_at@,
            session.user_agent@ == user_agent@,
            session.csrf_tokens@ == old(session).csrf_tokens@,
        decreases req_headers@.len() - j,
    {
        let ghost pre = hv.skip(j as int);
        proof {
            assert(pre[0] == hv[j as int]);
            assert(hv[j as int] == (req_headers@[j as int].0@, req_headers@[j as int].1@));
            assert(pre.drop_first() =~= hv.skip(j as int + 1));
        }
        if crate::event::is_auth_header_name_exec(&req_headers[j].0) {
            session.auth_headers.insert(req_headers[j].0.clone(), req_headers[j].1.clone());
        }
        j = j + 1;
    }
    proof {
        assert(hv.skip(req_headers@.len() as int).len() == 0);
    }

    let ghost rv = resp_headers.deep_view();
    let mut k: usize = 0;
    proof {
        assert(rv.skip(0) =~= rv);
    }
    while k < resp_headers.len()
        invariant
            k <= resp_headers@.len(),
            rv.len() == resp_headers@.len(),
            rv == resp_headers.deep_view(),
            spec_csrf_after(old(session).csrf_tokens@, rv) == spec_csrf_after(
                session.csrf_tokens@,
                rv.skip(k as int),
            ),
            session.cookies@ == spec_cookies_after(old(session).cookies@, hv),
            session.auth_headers@ == spec_auth_after(old(session).auth_headers@, hv),
            names.deep_view() == spec_new_names_after(hv),
            session.domain@ == domain@,
            session.captured_at@ == captured_at@,
            session.user_agent@ == user_agent@,
        decreases resp_headers@.len() - k,
    {
        let ghost pre = rv.skip(k as int);
        proof {
            assert(pre[0] == rv[k as int]);
            assert(rv[k as int] == (resp_headers@[k as int].0@, resp_headers@[k as int].1@));
            assert(pre.drop_first() =~= rv.skip(k as int + 1));
        }
        let l = lower_chars(&to_chars(resp_headers[k].0.as_str()));
        if contains_chars(&l, &to_chars("csrf")) || contains_chars(&l, &to_chars("xsrf")) {
            session.csrf_tokens.insert(resp_headers[k].0.clone(), resp_headers[k].1.clone());
        }
        k = k + 1;
    }
    proof {
        assert(rv.skip(resp_headers@.len() as int).len() == 0);
    }
    names
}

} // verus!
