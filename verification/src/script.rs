//! The generated example script: one replayable request per top
//! endpoint, rendered with the current session's cookies, auth headers
//! and user agent.
use vstd::prelude::*;
use crate::catalog::{EndpointCatalog, EndpointView, eps_view};
use crate::noise::{spec_should_skip, should_skip_capture};
use crate::session::SessionData;
use crate::text::{contains_seq, dec_str, to_chars, chars_eq, chars_to_string, push_str_chars,
    push_all, dec_chars, contains_chars};

verus! {

/// One `name=value` rendering of a cookie pair.
pub open spec fn pair_str(p: (Seq<char>, Seq<char>)) -> Seq<char> {
    p.0 + seq!['='] + p.1
}

/// The whole cookie header value: pairs joined by `; `.
pub open spec fn spec_cookie_header(cookies: Seq<(Seq<char>, Seq<char>)>) -> Seq<char>
    decreases cookies.len(),
{
    if cookies.len() == 0 {
        Seq::empty()
    } else if cookies.len() == 1 {
        pair_str(cookies[0])
    } else {
        pair_str(cookies[0]) + "; "@ + spec_cookie_header(cookies.drop_first())
    }
}

proof fn lemma_cookie_header_snoc(l: Seq<(Seq<char>, Seq<char>)>, p: (Seq<char>, Seq<char>))
    requires
        l.len() >= 1,
    ensures
        spec_cookie_header(l.push(p)) == spec_cookie_header(l) + "; "@ + pair_str(p),
    decreases l.len(),
{
    if l.len() == 1 {
        assert(l.push(p)[0] == l[0]);
        assert(l.push(p).drop_first() =~= seq![p]);
        assert(spec_cookie_header(seq![p]) == pair_str(p));
    } else {
        assert(l.push(p)[0] == l[0]);
        assert(l.push(p).drop_first() =~= l.drop_first().push(p));
        lemma_cookie_header_snoc(l.drop_first(), p);
        assert(pair_str(l[0]) + "; "@ + (spec_cookie_header(l.drop_first()) + "; "@ + pair_str(p))
            =~= (pair_str(l[0]) + "; "@ + spec_cookie_header(l.drop_first())) + "; "@ + pair_str(
            p,
        ));
    }
}

/// Render the session's cookies as one header value.
pub fn cookie_header_value(session: &SessionData) -> (r: Vec<char>)
    ensures
        r@ == spec_cookie_header(session.cookies@),
{
    let ghost cv = session.cookies@;
    let mut out: Vec<char> = Vec::new();
    let n = session.cookies.len();
    let mut i: usize = 0;
    while i < n
        invariant
            i <= n,
            n == cv.len(),
            cv == session.cookies@,
            out@ == spec_cookie_header(cv.take(i as int)),
        decreases n - i,
    {
        if i > 0 {
            push_str_chars(&mut out, "; ");
        }
        let k = session.cookies.key_at(i);
        let v = session.cookies.val_at(i);
        push_str_chars(&mut out, k.as_str());
        out.push('=');
        push_str_chars(&mut out, v.as_str());
        proof {
            if i == 0 {
                assert(cv.take(1) =~= seq![cv[0]]);
                assert(out@ =~= pair_str(cv[0]));
            } else {
                lemma_cookie_header_snoc(cv.take(i as int), cv[i as int]);
                assert(cv.take(i as int).push(cv[i as int]) =~= cv.take(i as int + 1));
                assert(out@ =~= spec_cookie_header(cv.take(i as int)) + "; "@ + pair_str(
                    cv[i as int],
                ));
            }
        }
        i = i + 1;
    }
    proof {
        assert(cv.take(n as int) =~= cv);
    }
    out
}

/// The extra header lines for the session's auth headers, in order.
pub open spec fn spec_auth_header_lines(hs: Seq<(Seq<char>, Seq<char>)>) -> Seq<char>
    decreases hs.len(),
{
    if hs.len() == 0 {
        Seq::empty()
    } else {
        " \\\n  -H '"@ + hs[0].0 + ": "@ + hs[0].1 + "'"@ + spec_auth_header_lines(hs.drop_first())
    }
}

fn push_auth_header_lines(out: &mut Vec<char>, session: &SessionData)
    ensures
        final(out)@ == old(out)@ + spec_auth_header_lines(session.auth_headers@),
{
    let ghost av = session.auth_headers@;
    let n = session.auth_headers.len();
    let mut i: usize = 0;
    proof {
        assert(av.skip(0) =~= av);
    }
    while i < n
        invariant
            i <= n,
            n == av.len(),
            av == session.auth_headers@,
            out@ + spec_auth_header_lines(av.skip(i as int)) == old(out)@ + spec_auth_header_lines(
                av,
            ),
        decreases n - i,
    {
        let ghost pre = av.skip(i as int);
        proof {
            assert(pre[0] == av[i as int]);
            assert(pre.drop_first() =~= av.skip(i as int + 1));
        }
        push_str_chars(out, " \\\n  -H '");
        push_str_chars(out, session.auth_headers.key_at(i).as_str());
        push_str_chars(out, ": ");
        push_str_chars(out, session.auth_headers.val_at(i).as_str());
        push_str_chars(out, "'");
        proof {
            assert(out@ + spec_auth_header_lines(av.skip(i as int + 1)) =~= old(out)@
                + spec_auth_header_lines(av));
        }
        i = i + 1;
    }
    proof {
        assert(av.skip(n as int).len() == 0);
        assert(out@ =~= old(out)@ + spec_auth_header_lines(av));
    }
}

pub open spec fn spec_method_of(ep: EndpointView) -> Seq<char> {
    if ep.methods.len() > 0 {
        ep.methods[0]
    } else {
        "GET"@
    }
}

pub open spec fn spec_is_post(m: Seq<char>) -> bool {
    m == "POST"@ || m == "PUT"@ || m == "PATCH"@
}

pub open spec fn spec_has_json_ct(l: Seq<Seq<char>>) -> bool {
    exists|i: int| 0 <= i < l.len() && contains_seq(l[i], "json"@)
}

/// The comment lines above one rendered request.
pub open spec fn spec_ep_header(ep: EndpointView) -> Seq<char> {
    "# "@ + ep.pattern + "\n"@ + "# Seen: "@ + dec_str(ep.times_seen as nat) + " times, last: "@
        + ep.last_seen + "\n"@
}

/// The request line of one rendered request.
pub open spec fn spec_ep_curl(ep: EndpointView) -> Seq<char> {
    let m = spec_method_of(ep);
    "curl"@ + (if spec_is_post(m) {
        " -X "@ + m
    } else {
        Seq::<char>::empty()
    }) + " '"@ + ep.observed_urls[0] + "'"@
}

pub open spec fn spec_ep_cookie(cookie_header: Seq<char>) -> Seq<char> {
    if cookie_header.len() > 0 {
        " \\\n  -H 'Cookie: "@ + cookie_header + "'"@
    } else {
        Seq::<char>::empty()
    }
}

pub open spec fn spec_ep_ua(ua: Seq<char>) -> Seq<char> {
    if ua.len() > 0 {
        " \\\n  -H 'User-Agent: "@ + ua + "'"@
    } else {
        Seq::<char>::empty()
    }
}

pub open spec fn spec_ep_body(ep: EndpointView) -> Seq<char> {
    if spec_is_post(spec_method_of(ep)) && spec_has_json_ct(ep.request_content_types) {
        " \\\n  -H 'Content-Type: application/json'"@ + " \\\n  -d '{}'"@
    } else {
        Seq::<char>::empty()
    }
}

/// One endpoint rendered as a request.
pub open spec fn spec_ep_text(
    ep: EndpointView,
    cookie_header: Seq<char>,
    auth_headers: Seq<(Seq<char>, Seq<char>)>,
    ua: Seq<char>,
) -> Seq<char> {
    spec_ep_header(ep) + spec_ep_curl(ep) + spec_ep_cookie(cookie_header)
        + spec_auth_header_lines(auth_headers) + spec_ep_ua(ua) + spec_ep_body(ep) + "\n\n"@
}

/// Up to `budget` endpoints rendered, skipping records without an
/// observed URL and records whose first URL is noise.
pub open spec fn spec_examples_eps(
    eps: Seq<EndpointView>,
    budget: int,
    cookie_header: Seq<char>,
    auth_headers: Seq<(Seq<char>, Seq<char>)>,
    ua: Seq<char>,
) -> Seq<char>
    decreases eps.len(),
{
    if eps.len() == 0 || budget <= 0 {
        Seq::empty()
    } else if eps[0].observed_urls.len() == 0 {
        spec_examples_eps(eps.drop_first(), budget, cookie_header, auth_headers, ua)
    } else if spec_should_skip(eps[0].observed_urls[0]) {
        spec_examples_eps(eps.drop_first(), budget, cookie_header, auth_headers, ua)
    } else {
        spec_ep_text(eps[0], cookie_header, auth_headers, ua) + spec_examples_eps(
            eps.drop_first(),
            budget - 1,
            cookie_header,
            auth_headers,
            ua,
        )
    }
}

/// The whole example script for a sorted catalog and a session.
pub open spec fn spec_examples(
    eps: Seq<EndpointView>,
    cookies: Seq<(Seq<char>, Seq<char>)>,
    auth_headers: Seq<(Seq<char>, Seq<char>)>,
    ua: Seq<char>,
    generated_at: Seq<char>,
) -> Seq<char> {
    "#!/usr/bin/env bash\n"@ + "# Auto-generated curl examples from harharhar captures\n"@
        + "# Generated: "@ + generated_at + "\n"@ + "\n"@ + spec_examples_eps(
        eps,
        20,
        spec_cookie_header(cookies),
        auth_headers,
        ua,
    )
}

fn ep_header_text(ep: &crate::catalog::Endpoint) -> (r: Vec<char>)
    ensures
        r@ == spec_ep_header(ep@),
{
    let mut out = to_chars("# ");
    push_str_chars(&mut out, ep.pattern.as_str());
    push_str_chars(&mut out, "\n");
    push_str_chars(&mut out, "# Seen: ");
    let d = dec_chars(ep.times_seen as u64);
    push_all(&mut out, &d);
    push_str_chars(&mut out, " times, last: ");
    push_str_chars(&mut out, ep.last_seen.as_str());
    push_str_chars(&mut out, "\n");
    proof {
        assert(out@ =~= spec_ep_header(ep@));
    }
    out
}

fn ep_curl_text(ep: &crate::catalog::Endpoint) -> (r: Vec<char>)
    requires
        ep@.observed_urls.len() > 0,
    ensures
        r@ == spec_ep_curl(ep@),
{
    let mut out = to_chars("curl");
    let method: &str = if ep.methods.len() > 0 {
        proof {
            assert(ep@.methods[0] == ep.methods@[0]@);
        }
        ep.methods[0].as_str()
    } else {
        "GET"
    };
    let mc = to_chars(method);
    let post = chars_eq(&mc, &to_chars("POST")) || chars_eq(&mc, &to_chars("PUT")) || chars_eq(
        &mc,
        &to_chars("PATCH"),
    );
    if post {
        push_str_chars(&mut out, " -X ");
        push_str_chars(&mut out, method);
    }
    push_str_chars(&mut out, " '");
    proof {
        assert(ep@.observed_urls[0] == ep.observed_urls@[0]@);
    }
    push_str_chars(&mut out, ep.observed_urls[0].as_str());
    push_str_chars(&mut out, "'");
    proof {
        assert(out@ =~= spec_ep_curl(ep@));
    }
    out
}

fn ep_cookie_text(cookie_header: &Vec<char>) -> (r: Vec<char>)
    ensures
        r@ == spec_ep_cookie(cookie_header@),
{
    let mut out: Vec<char> = Vec::new();
    if cookie_header.len() > 0 {
        push_str_chars(&mut out, " \\\n  -H 'Cookie: ");
        push_all(&mut out, cookie_header);
        push_str_chars(&mut out, "'");
    }
    proof {
        assert(out@ =~= spec_ep_cookie(cookie_header@));
    }
    out
}

fn ep_ua_text(session: &SessionData) -> (r: Vec<char>)
    ensures
        r@ == spec_ep_ua(session.user_agent@),
{
    let mut out: Vec<char> = Vec::new();
    let ua = session.user_agent.as_str();
    if !ua.is_empty() {
        push_str_chars(&mut out, " \\\n  -H 'User-Agent: ");
        push_str_chars(&mut out, ua);
        push_str_chars(&mut out, "'");
    }
    proof {
        assert(out@ =~= spec_ep_ua(session.user_agent@));
    }
    out
}

fn ep_body_text(ep: &crate::catalog::Endpoint) -> (r: Vec<char>)
    ensures
        r@ == spec_ep_body(ep@),
{
    let method: &str = if ep.methods.len() > 0 {
        proof {
            assert(ep@.methods[0] == ep.methods@[0]@);
        }
        ep.methods[0].as_str()
    } else {
        "GET"
    };
    let mc = to_chars(method);
    let post = chars_eq(&mc, &to_chars("POST")) || chars_eq(&mc, &to_chars("PUT")) || chars_eq(
        &mc,
        &to_chars("PATCH"),
    );
    let mut has_json = false;
    let ghost ctv = ep@.request_content_types;
    let n = ep.request_content_types.len();
    let mut i: usize = 0;
    while i < n
        invariant
            i <= n,
            n == ctv.len(),
            ctv == ep@.request_content_types,
            has_json == exists|k: int| 0 <= k < i && contains_seq(ctv[k], "json"@),
        decreases n - i,
    {
        proof {
            assert(ctv[i as int] == ep.request_content_types@[i as int]@);
        }
        let c = to_chars(ep.request_content_types[i].as_str());
        if contains_chars(&c, &to_chars("json")) {
            proof {
                assert(contains_seq(ctv[i as int], "json"@));
            }
            has_json = true;
        }
        i = i + 1;
    }
    let mut out: Vec<char> = Vec::new();
    if post && has_json {
        push_str_chars(&mut out, " \\\n  -H 'Content-Type: application/json'");
        push_str_chars(&mut out, " \\\n  -d '{}'");
    }
    proof {
        assert(out@ =~= spec_ep_body(ep@));
    }
    out
}

fn push_ep_text(out: &mut Vec<char>, ep: &crate::catalog::Endpoint, cookie_header: &Vec<char>,
    session: &SessionData)
    requires
        ep@.observed_urls.len() > 0,
        cookie_header@ == spec_cookie_header(session.cookies@),
    ensures
        final(out)@ == old(out)@ + spec_ep_text(
            ep@,
            cookie_header@,
            session.auth_headers@,
            session.user_agent@,
        ),
{
    let header = ep_header_text(ep);
    push_all(out, &header);
    let curl = ep_curl_text(ep);
    push_all(out, &curl);
    let cookie = ep_cookie_text(cookie_header);
    push_all(out, &cookie);
    push_auth_header_lines(out, session);
    let ua = ep_ua_text(session);
    push_all(out, &ua);
    let body = ep_body_text(ep);
    push_all(out, &body);
    push_str_chars(out, "\n\n");
    proof {
        assert(out@ =~= old(out)@ + spec_ep_text(
            ep@,
            cookie_header@,
            session.auth_headers@,
            session.user_agent@,
        ));
    }
}

/// Generate the whole example script.
pub fn generate_examples(
    catalog: &EndpointCatalog,
    session: &SessionData,
    generated_at: &str,
) -> (r: String)
    ensures
        r@ == spec_examples(
            eps_view(catalog.endpoints@),
            session.cookies@,
            session.auth_headers@,
            session.user_agent@,
            generated_at@,
        ),
{
    let cookie_header = cookie_header_value(session);
    let mut out = to_chars("#!/usr/bin/env bash\n");
    push_str_chars(&mut out, "# Auto-generated curl examples from harharhar captures\n");
    push_str_chars(&mut out, "# Generated: ");
    push_str_chars(&mut out, generated_at);
    push_str_chars(&mut out, "\n");
    push_str_chars(&mut out, "\n");
    let ghost header = out@;
    let ghost ev = eps_view(catalog.endpoints@);
    let ghost ck = spec_cookie_header(session.cookies@);
    let mut budget: usize = 20;
    let mut i: usize = 0;
    proof {
        assert(ev.skip(0) =~= ev);
    }
    while i < catalog.endpoints.len() && budget > 0
        invariant
            i <= catalog.endpoints@.len(),
            budget <= 20,
            ev.len() == catalog.endpoints@.len(),
            ev == eps_view(catalog.endpoints@),
            ck == spec_cookie_header(session.cookies@),
            cookie_header@ == ck,
            out@ + spec_examples_eps(
                ev.skip(i as int),
                budget as int,
                ck,
                session.auth_headers@,
                session.user_agent@,
            ) == header + spec_examples_eps(
                ev,
                20,
                ck,
                session.auth_headers@,
                session.user_agent@,
            ),
        decreases catalog.endpoints@.len() - i,
    {
        let ghost pre = ev.skip(i as int);
        proof {
            assert(pre[0] == ev[i as int]);
            assert(ev[i as int] == catalog.endpoints@[i as int]@);
            assert(pre.drop_first() =~= ev.skip(i as int + 1));
        }
        let ep = &catalog.endpoints[i];
        if ep.observed_urls.len() == 0 {
            i = i + 1;
            continue ;
        }
        proof {
            assert(ev[i as int].observed_urls[0] == ep.observed_urls@[0]@);
        }
        if should_skip_capture(ep.observed_urls[0].as_str()) {
            i = i + 1;
            continue ;
        }
        push_ep_text(&mut out, ep, &cookie_header, session);
        budget = budget - 1;
        i = i + 1;
    }
    proof {
        if i >= ev.len() {
            assert(ev.skip(i as int).len() == 0);
        }
        assert(out@ =~= header + spec_examples_eps(
            ev,
            20,
            ck,
            session.auth_headers@,
            session.user_agent@,
        ));
    }
    chars_to_string(&out)
}

} // verus!
