//! The endpoint cataloger: a full rescan over an app's decoded log
//! lines, aggregating one record per `(method, normalized pattern)`
//! key, the inferred auth model, and the generated example script.
use vstd::prelude::*;
use crate::event::{CaptureEvent, is_auth_header_name};
use crate::pattern::spec_normalize_path;
use crate::session::spec_merge_cookie_value;
use crate::shape::{JsonValue, JsonView, json_view, spec_shape, extract_shape};
use crate::strmap::{StrMap, spec_lookup, spec_upsert};
use crate::text::{lower, contains_seq, lex_le, to_chars, lower_chars, chars_eq, contains_chars,
    chars_to_string, split_chars, lemma_split_len};
use crate::urlinfo::{url_parse_of, parse_url};

verus! {

/// One aggregated endpoint record.
pub struct Endpoint {
    pub pattern: String,
    pub methods: Vec<String>,
    pub observed_urls: Vec<String>,
    pub query_params: Vec<String>,
    pub request_content_types: Vec<String>,
    pub response_content_types: Vec<String>,
    pub response_shape_sample: Option<JsonValue>,
    pub auth_required: bool,
    pub times_seen: u32,
    pub last_seen: String,
}

/// The records of one app, sorted by `times_seen` descending, ties
/// broken by pattern ascending.
pub struct EndpointCatalog {
    pub endpoints: Vec<Endpoint>,
}

/// One inferred auth mechanism.
pub struct AuthMechanism {
    pub mech_type: String,
    pub details: Vec<(String, JsonValue)>,
}

/// The inferred auth model of one app.
pub struct AuthInfo {
    pub mechanisms: Vec<AuthMechanism>,
    pub login_url: Option<String>,
    pub observed_refresh_endpoints: Vec<String>,
    pub session_duration_estimate: String,
}

/// One decoded log line: the event, and its response body as a JSON
/// tree where it parsed as one.
pub struct LogLine {
    pub event: CaptureEvent,
    pub response_json: Option<JsonValue>,
}

/// The mathematical form of an endpoint record.
#[verifier::ext_equal]
pub struct EndpointView {
    pub pattern: Seq<char>,
    pub methods: Seq<Seq<char>>,
    pub observed_urls: Seq<Seq<char>>,
    pub query_params: Seq<Seq<char>>,
    pub request_content_types: Seq<Seq<char>>,
    pub response_content_types: Seq<Seq<char>>,
    pub response_shape_sample: Option<JsonView>,
    pub auth_required: bool,
    pub times_seen: int,
    pub last_seen: Seq<char>,
}

impl View for Endpoint {
    type V = EndpointView;

    open spec fn view(&self) -> EndpointView {
        EndpointView {
            pattern: self.pattern@,
            methods: self.methods.deep_view(),
            observed_urls: self.observed_urls.deep_view(),
            query_params: self.query_params.deep_view(),
            request_content_types: self.request_content_types.deep_view(),
            response_content_types: self.response_content_types.deep_view(),
            response_shape_sample: match self.response_shape_sample {
                Some(v) => Some(json_view(v)),
                None => None,
            },
            auth_required: self.auth_required,
            times_seen: self.times_seen as int,
            last_seen: self.last_seen@,
        }
    }
}

pub open spec fn eps_view(l: Seq<Endpoint>) -> Seq<EndpointView> {
    Seq::new(l.len(), |i: int| l[i]@)
}

/// The running state of one rescan.
#[verifier::ext_equal]
pub struct ScanView {
    pub endpoints: Seq<EndpointView>,
    pub cookies: Seq<(Seq<char>, Seq<char>)>,
    pub auth_headers: Seq<(Seq<char>, Seq<char>)>,
    pub login_urls: Seq<Seq<char>>,
    pub refresh_urls: Seq<Seq<char>>,
}

// --- per-record update helpers ---

pub open spec fn add_if_absent(l: Seq<Seq<char>>, x: Seq<char>) -> Seq<Seq<char>> {
    if l.contains(x) {
        l
    } else {
        l.push(x)
    }
}

/// At most three distinct observed URLs are kept.
pub open spec fn add_url(l: Seq<Seq<char>>, x: Seq<char>) -> Seq<Seq<char>> {
    if l.len() < 3 && !l.contains(x) {
        l.push(x)
    } else {
        l
    }
}

pub open spec fn add_all_absent(l: Seq<Seq<char>>, xs: Seq<Seq<char>>) -> Seq<Seq<char>>
    decreases xs.len(),
{
    if xs.len() == 0 {
        l
    } else {
        add_all_absent(add_if_absent(l, xs[0]), xs.drop_first())
    }
}

/// One observation folded into a record.
pub open spec fn upd_endpoint(
    ep: EndpointView,
    method: Seq<char>,
    url: Seq<char>,
    qnames: Seq<Seq<char>>,
    resp_ct: Seq<char>,
    shape: Option<JsonView>,
    authed: bool,
    ts: Seq<char>,
) -> EndpointView {
    EndpointView {
        pattern: ep.pattern,
        methods: add_if_absent(ep.methods, method),
        observed_urls: add_url(ep.observed_urls, url),
        query_params: add_all_absent(ep.query_params, qnames),
        request_content_types: ep.request_content_types,
        response_content_types: if resp_ct.len() > 0 {
            add_if_absent(ep.response_content_types, resp_ct)
        } else {
            ep.response_content_types
        },
        response_shape_sample: match ep.response_shape_sample {
            Some(s) => Some(s),
            None => shape,
        },
        auth_required: ep.auth_required || authed,
        times_seen: if ep.times_seen >= u32::MAX {
            ep.times_seen
        } else {
            ep.times_seen + 1
        },
        last_seen: ts,
    }
}

/// A fresh record for a key not seen before.
pub open spec fn fresh_endpoint(key: Seq<char>) -> EndpointView {
    EndpointView {
        pattern: key,
        methods: Seq::empty(),
        observed_urls: Seq::empty(),
        query_params: Seq::empty(),
        request_content_types: Seq::empty(),
        response_content_types: Seq::empty(),
        response_shape_sample: None,
        auth_required: false,
        times_seen: 0,
        last_seen: Seq::empty(),
    }
}

/// Fold one observation into the record list: the first record with
/// this key is updated in place, or a fresh one is appended and
/// updated.
pub open spec fn spec_upsert_endpoint(
    eps: Seq<EndpointView>,
    key: Seq<char>,
    method: Seq<char>,
    url: Seq<char>,
    qnames: Seq<Seq<char>>,
    resp_ct: Seq<char>,
    shape: Option<JsonView>,
    authed: bool,
    ts: Seq<char>,
) -> Seq<EndpointView>
    decreases eps.len(),
{
    if eps.len() == 0 {
        seq![upd_endpoint(fresh_endpoint(key), method, url, qnames, resp_ct, shape, authed, ts)]
    } else if eps[0].pattern == key {
        seq![upd_endpoint(eps[0], method, url, qnames, resp_ct, shape, authed, ts)]
            + eps.drop_first()
    } else {
        seq![eps[0]] + spec_upsert_endpoint(
            eps.drop_first(),
            key,
            method,
            url,
            qnames,
            resp_ct,
            shape,
            authed,
            ts,
        )
    }
}

// --- the per-line step ---

/// The auth test the cataloger applies to raw headers: an auth header
/// name, or any cookie header.
pub open spec fn line_has_auth(hs: Seq<(Seq<char>, Seq<char>)>) -> bool {
    exists|i: int| 0 <= i < hs.len() && (is_auth_header_name(hs[i].0) || lower(hs[i].0) == "cookie"@)
}

/// Auth headers of the line merged into the seen set, and cookie
/// headers parsed into the seen cookie set, front to back.
pub open spec fn harvest_headers(
    st: (Seq<(Seq<char>, Seq<char>)>, Seq<(Seq<char>, Seq<char>)>),
    hs: Seq<(Seq<char>, Seq<char>)>,
) -> (Seq<(Seq<char>, Seq<char>)>, Seq<(Seq<char>, Seq<char>)>)
    decreases hs.len(),
{
    if hs.len() == 0 {
        st
    } else {
        let cookies1 = if lower(hs[0].0) == "cookie"@ {
            spec_merge_cookie_value(st.0, hs[0].1)
        } else {
            st.0
        };
        let auth1 = if is_auth_header_name(hs[0].0) {
            spec_upsert(st.1, hs[0].0, hs[0].1)
        } else {
            st.1
        };
        harvest_headers((cookies1, auth1), hs.drop_first())
    }
}

/// The login / refresh classification of one path, exactly as written:
/// `login` or `signin` anywhere, or `auth` together with (method POST
/// or `token`); then `refresh` or `token` marks a refresh endpoint.
pub open spec fn login_kind(path_lower: Seq<char>, method: Seq<char>) -> int {
    if contains_seq(path_lower, "login"@) || contains_seq(path_lower, "signin"@) || (contains_seq(
        path_lower,
        "auth"@,
    ) && (method == "POST"@ || contains_seq(path_lower, "token"@))) {
        if contains_seq(path_lower, "refresh"@) || contains_seq(path_lower, "token"@) {
            2
        } else {
            1
        }
    } else {
        0
    }
}

/// The exact content-type header of the response, when its value is
/// there under that exact name.
pub open spec fn resp_content_type(e: CaptureEvent) -> Seq<char> {
    match e.response_headers {
        Some(hs) => match spec_lookup(hs.deep_view(), "content-type"@) {
            Some(v) => v,
            None => Seq::empty(),
        },
        None => Seq::empty(),
    }
}

/// One line folded into the scan state.
pub open spec fn spec_scan_step(st: ScanView, line: LogLine) -> ScanView {
    let e = line.event;
    if crate::event::is_xhr_start(e.entry_type@) {
        // superseded by the completion entry: never an observation
        st
    } else if e.entry_type@ == "cookies"@ {
        // harvest cookies only; the entry is no endpoint
        match e.request_headers {
            Some(hs) => match spec_lookup(hs.deep_view(), "cookie"@) {
                Some(v) => ScanView { cookies: spec_merge_cookie_value(st.cookies, v), ..st },
                None => st,
            },
            None => st,
        }
    } else {
        match e.url {
            None => st,
            Some(u) => match url_parse_of(u@) {
                None => st,
                Some(parts) => {
                    let path = parts.1;
                    let qnames = parts.2;
                    let method = match e.method {
                        Some(m) => m@,
                        None => "GET"@,
                    };
                    let ts = match e.timestamp {
                        Some(t) => t@,
                        None => Seq::empty(),
                    };
                    let key = method + seq![' '] + spec_normalize_path(path);
                    let hs = match e.request_headers {
                        Some(h) => h.deep_view(),
                        None => Seq::empty(),
                    };
                    let authed = line_has_auth(hs);
                    let harvested = harvest_headers((st.cookies, st.auth_headers), hs);
                    let kind = login_kind(lower(path), method);
                    let shape = match line.response_json {
                        Some(v) => Some(spec_shape(json_view(v), 0)),
                        None => None,
                    };
                    ScanView {
                        endpoints: spec_upsert_endpoint(
                            st.endpoints,
                            key,
                            method,
                            u@,
                            qnames,
                            resp_content_type(e),
                            shape,
                            authed,
                            ts,
                        ),
                        cookies: harvested.0,
                        auth_headers: harvested.1,
                        login_urls: if kind == 1 {
                            st.login_urls.push(u@)
                        } else {
                            st.login_urls
                        },
                        refresh_urls: if kind == 2 {
                            st.refresh_urls.push(u@)
                        } else {
                            st.refresh_urls
                        },
                    }
                },
            },
        }
    }
}

/// The whole rescan, front to back over the lines.
pub open spec fn spec_scan(st: ScanView, lines: Seq<LogLine>) -> ScanView
    decreases lines.len(),
{
    if lines.len() == 0 {
        st
    } else {
        spec_scan(spec_scan_step(st, lines[0]), lines.drop_first())
    }
}

pub open spec fn empty_scan() -> ScanView {
    ScanView {
        endpoints: Seq::empty(),
        cookies: Seq::empty(),
        auth_headers: Seq::empty(),
        login_urls: Seq::empty(),
        refresh_urls: Seq::empty(),
    }
}

// --- the rescan, executably ---

/// The running state of one rescan.
pub struct ScanState {
    pub endpoints: Vec<Endpoint>,
    pub cookies: StrMap,
    pub auth_headers: StrMap,
    pub login_urls: Vec<String>,
    pub refresh_urls: Vec<String>,
}

impl ScanState {
    pub open spec fn view(&self) -> ScanView {
        ScanView {
            endpoints: eps_view(self.endpoints@),
            cookies: self.cookies@,
            auth_headers: self.auth_headers@,
            login_urls: self.login_urls.deep_view(),
            refresh_urls: self.refresh_urls.deep_view(),
        }
    }

    pub fn new() -> (r: ScanState)
        ensures
            r@ == empty_scan(),
    {
        let r = ScanState {
            endpoints: Vec::new(),
            cookies: StrMap::new(),
            auth_headers: StrMap::new(),
            login_urls: Vec::new(),
            refresh_urls: Vec::new(),
        };
        proof {
            assert(r@ =~~= empty_scan());
        }
        r
    }
}

/// Append a string unless an equal one is already there.
fn push_if_absent(l: &mut Vec<String>, x: String)
    ensures
        final(l).deep_view() == add_if_absent(old(l).deep_view(), x@),
{
    let ghost xv = x@;
    if !crate::config::contains_string(l, x.as_str()) {
        let ghost before = l.deep_view();
        l.push(x);
        proof {
            assert(l.deep_view() =~~= before.push(xv));
        }
    }
}

/// Fold one observation into one record.
fn apply_observation(
    ep: Endpoint,
    method: &String,
    url: &String,
    qnames: &Vec<String>,
    resp_ct: &Option<String>,
    shape: Option<JsonValue>,
    authed: bool,
    ts: &String,
) -> (r: Endpoint)
    ensures
        r@ == upd_endpoint(
            ep@,
            method@,
            url@,
            qnames.deep_view(),
            match resp_ct {
                Some(c) => c@,
                None => Seq::empty(),
            },
            match shape {
                Some(s) => Some(json_view(s)),
                None => None,
            },
            authed,
            ts@,
        ),
{
    let ghost shape_view: Option<JsonView> = match &shape {
        Some(s) => Some(json_view(*s)),
        None => None,
    };
    let mut ep = ep;
    push_if_absent(&mut ep.methods, method.clone());
    if ep.observed_urls.len() < 3 && !crate::config::contains_string(
        &ep.observed_urls,
        url.as_str(),
    ) {
        let ghost before = ep.observed_urls.deep_view();
        ep.observed_urls.push(url.clone());
        proof {
            assert(ep.observed_urls.deep_view() =~~= before.push(url@));
        }
    }
    let ghost qv = qnames.deep_view();
    let ghost qp0 = ep.query_params.deep_view();
    let ghost epm = ep;
    let mut i: usize = 0;
    proof {
        assert(qv.skip(0) =~= qv);
    }
    while i < qnames.len()
        invariant
            i <= qnames@.len(),
            qv.len() == qnames@.len(),
            qv == qnames.deep_view(),
            add_all_absent(qp0, qv) == add_all_absent(
                ep.query_params.deep_view(),
                qv.skip(i as int),
            ),
            ep.pattern == epm.pattern,
            ep.methods == epm.methods,
            ep.observed_urls == epm.observed_urls,
            ep.request_content_types == epm.request_content_types,
            ep.response_content_types == epm.response_content_types,
            ep.response_shape_sample == epm.response_shape_sample,
            ep.auth_required == epm.auth_required,
            ep.times_seen == epm.times_seen,
            ep.last_seen == epm.last_seen,
        decreases qnames@.len() - i,
    {
        let ghost pre = qv.skip(i as int);
        proof {
            assert(pre[0] == qv[i as int]);
            assert(qv[i as int] == qnames@[i as int]@);
            assert(pre.drop_first() =~= qv.skip(i as int + 1));
        }
        push_if_absent(&mut ep.query_params, qnames[i].clone());
        i = i + 1;
    }
    proof {
        assert(qv.skip(qnames@.len() as int).len() == 0);
    }
    match resp_ct {
        Some(c) => {
            if !c.as_str().is_empty() {
                push_if_absent(&mut ep.response_content_types, c.clone());
            } else {
                proof {
                    assert(c@.len() == 0);
                }
            }
        },
        None => {},
    }
    let had_shape = ep.response_shape_sample.is_some();
    if !had_shape {
        ep.response_shape_sample = shape;
    }
    ep.auth_required = ep.auth_required || authed;
    if ep.times_seen < u32::MAX {
        ep.times_seen = ep.times_seen + 1;
    }
    ep.last_seen = ts.clone();
    ep
}

/// Fold one observation into the record list.
fn upsert_endpoint_exec(
    eps: &mut Vec<Endpoint>,
    key: &String,
    method: &String,
    url: &String,
    qnames: &Vec<String>,
    resp_ct: &Option<String>,
    shape: Option<JsonValue>,
    authed: bool,
    ts: &String,
)
    ensures
        eps_view(final(eps)@) == spec_upsert_endpoint(
            eps_view(old(eps)@),
            key@,
            method@,
            url@,
            qnames.deep_view(),
            match resp_ct {
                Some(c) => c@,
                None => Seq::empty(),
            },
            match shape {
                Some(s) => Some(json_view(s)),
                None => None,
            },
            authed,
            ts@,
        ),
{
    let ghost kv = key@;
    let ghost ctv: Seq<char> = match resp_ct {
        Some(c) => c@,
        None => Seq::empty(),
    };
    let ghost shv: Option<JsonView> = match &shape {
        Some(s) => Some(json_view(*s)),
        None => None,
    };
    let ghost goal = |v: Seq<EndpointView>|
        spec_upsert_endpoint(v, kv, method@, url@, qnames.deep_view(), ctv, shv, authed, ts@);
    let n = eps.len();
    let kc = to_chars(key.as_str());
    let mut i: usize = 0;
    proof {
        assert(eps_view(eps@).skip(0) =~= eps_view(eps@));
        assert(eps_view(eps@).take(0) + goal(eps_view(eps@)) =~= goal(eps_view(eps@)));
    }
    while i < n
        invariant
            eps@ == old(eps)@,
            n == eps@.len(),
            i <= n,
            kc@ == kv,
            forall|j: int| 0 <= j < i ==> eps_view(eps@)[j].pattern != kv,
            goal(eps_view(eps@)) == eps_view(eps@).take(i as int) + goal(
                eps_view(eps@).skip(i as int),
            ),
        decreases n - i,
    {
        let ghost ev = eps_view(eps@);
        let ghost pre = ev.skip(i as int);
        proof {
            assert(pre[0] == ev[i as int]);
            assert(pre.drop_first() =~= ev.skip(i as int + 1));
        }
        let pc = to_chars(eps[i].pattern.as_str());
        if chars_eq(&pc, &kc) {
            let ghost before = eps_view(eps@);
            let entry = eps.remove(i);
            let updated = apply_observation(entry, method, url, qnames, resp_ct, shape, authed, ts);
            eps.insert(i, updated);
            proof {
                assert(goal(pre) == seq![
                    upd_endpoint(pre[0], method@, url@, qnames.deep_view(), ctv, shv, authed, ts@),
                ] + pre.drop_first());
                assert(eps_view(eps@) =~~= before.take(i as int) + (seq![
                    upd_endpoint(pre[0], method@, url@, qnames.deep_view(), ctv, shv, authed, ts@),
                ] + pre.drop_first()));
                assert(eps_view(eps@) =~~= goal(before));
            }
            return ;
        }
        proof {
            assert(goal(pre) == seq![pre[0]] + goal(pre.drop_first()));
            assert(ev.take(i as int) + (seq![pre[0]] + goal(ev.skip(i as int + 1))) =~= ev.take(
                i as int + 1,
            ) + goal(ev.skip(i as int + 1)));
        }
        i = i + 1;
    }
    proof {
        assert(eps_view(eps@).skip(n as int).len() == 0);
    }
    let fresh = Endpoint {
        pattern: key.clone(),
        methods: Vec::new(),
        observed_urls: Vec::new(),
        query_params: Vec::new(),
        request_content_types: Vec::new(),
        response_content_types: Vec::new(),
        response_shape_sample: None,
        auth_required: false,
        times_seen: 0,
        last_seen: String::new(),
    };
    proof {
        assert(fresh@ =~~= fresh_endpoint(kv));
    }
    let updated = apply_observation(fresh, method, url, qnames, resp_ct, shape, authed, ts);
    let ghost uv = updated@;
    let ghost before = eps_view(eps@);
    eps.push(updated);
    proof {
        assert(goal(before.skip(n as int)) == seq![
            upd_endpoint(fresh_endpoint(kv), method@, url@, qnames.deep_view(), ctv, shv, authed, ts@),
        ]);
        assert(uv == upd_endpoint(
            fresh_endpoint(kv),
            method@,
            url@,
            qnames.deep_view(),
            ctv,
            shv,
            authed,
            ts@,
        ));
        assert(eps_view(eps@) =~~= before + seq![uv]);
        assert(before.take(n as int) =~= before);
        assert(eps_view(eps@) =~~= goal(before));
    }
}

/// The cataloger's own auth test on raw headers.
pub fn line_has_auth_exec(hs: &Vec<(String, String)>) -> (r: bool)
    ensures
        r == line_has_auth(hs.deep_view()),
{
    let ghost dv = hs.deep_view();
    let mut i: usize = 0;
    while i < hs.len()
        invariant
            i <= hs@.len(),
            dv.len() == hs@.len(),
            dv == hs.deep_view(),
            forall|k: int|
                0 <= k < i ==> !(is_auth_header_name(dv[k].0) || lower(dv[k].0) == "cookie"@),
        decreases hs@.len() - i,
    {
        proof {
            assert(dv[i as int].0 == hs@[i as int].0@);
        }
        let is_auth = crate::event::is_auth_header_name_exec(&hs[i].0);
        let l = lower_chars(&to_chars(hs[i].0.as_str()));
        if is_auth || chars_eq(&l, &to_chars("cookie")) {
            proof {
                assert(is_auth_header_name(dv[i as int].0) || lower(dv[i as int].0) == "cookie"@);
            }
            return true;
        }
        i = i + 1;
    }
    false
}

/// Fold one decoded log line into the scan state.
pub fn scan_line(st: &mut ScanState, line: &LogLine)
    ensures
        final(st)@ == spec_scan_step(old(st)@, *line),
{
    let e = &line.event;
    let tc = to_chars(e.entry_type.as_str());
    if chars_eq(&tc, &to_chars("xhr-start")) {
        proof {
            assert(st@ =~~= spec_scan_step(old(st)@, *line));
        }
        return ;
    }
    if chars_eq(&tc, &to_chars("cookies")) {
        match &e.request_headers {
            Some(hs) => {
                match crate::event::lookup_header(hs, "cookie") {
                    Some(v) => {
                        let mut scratch: Vec<String> = Vec::new();
                        crate::session::merge_cookie_value(&mut st.cookies, v, &mut scratch);
                        proof {
                            assert(st@ =~~= spec_scan_step(old(st)@, *line));
                        }
                    },
                    None => {
                        proof {
                            assert(st@ =~~= spec_scan_step(old(st)@, *line));
                        }
                    },
                }
            },
            None => {
                proof {
                    assert(st@ =~~= spec_scan_step(old(st)@, *line));
                }
            },
        }
        return ;
    }
    let url = match &e.url {
        Some(u) => u,
        None => {
            proof {
                assert(st@ =~~= spec_scan_step(old(st)@, *line));
            }
            return ;
        },
    };
    let parts = match parse_url(url.as_str()) {
        Some(p) => p,
        None => {
            proof {
                assert(st@ =~~= spec_scan_step(old(st)@, *line));
            }
            return ;
        },
    };
    let method: String = match &e.method {
        Some(m) => m.clone(),
        None => String::from_str("GET"),
    };
    let ts: String = match &e.timestamp {
        Some(t) => t.clone(),
        None => String::new(),
    };
    let mut keyc = to_chars(method.as_str());
    keyc.push(' ');
    let norm = crate::pattern::normalize_path(parts.path.as_str());
    crate::text::push_str_chars(&mut keyc, norm.as_str());
    let key = chars_to_string(&keyc);
    proof {
        assert(key@ =~= (match line.event.method {
            Some(m) => m@,
            None => "GET"@,
        }) + seq![' '] + spec_normalize_path(url_parse_of(line.event.url->Some_0@)->Some_0.1));
    }

    let empty_hs: Vec<(String, String)> = Vec::new();
    let hs: &Vec<(String, String)> = match &e.request_headers {
        Some(h) => h,
        None => &empty_hs,
    };
    proof {
        if line.event.request_headers is None {
            assert(hs.deep_view() =~~= Seq::<(Seq<char>, Seq<char>)>::empty());
        }
    }
    let authed = line_has_auth_exec(hs);

    let ghost hv = hs.deep_view();
    let ghost cookies0 = st.cookies@;
    let ghost auth0 = st.auth_headers@;
    let ghost eps0 = st@.endpoints;
    let ghost login0 = st@.login_urls;
    let ghost refresh0 = st@.refresh_urls;
    let mut i: usize = 0;
    proof {
        assert(hv.skip(0) =~= hv);
    }
    while i < hs.len()
        invariant
            i <= hs@.len(),
            hv.len() == hs@.len(),
            hv == hs.deep_view(),
            harvest_headers((cookies0, auth0), hv) == harvest_headers(
                (st.cookies@, st.auth_headers@),
                hv.skip(i as int),
            ),
            st@.endpoints == eps0,
            st@.login_urls == login0,
            st@.refresh_urls == refresh0,
        decreases hs@.len() - i,
    {
        let ghost pre = hv.skip(i as int);
        proof {
            assert(pre[0] == hv[i as int]);
            assert(hv[i as int] == (hs@[i as int].0@, hs@[i as int].1@));
            assert(pre.drop_first() =~= hv.skip(i as int + 1));
        }
        let l = lower_chars(&to_chars(hs[i].0.as_str()));
        if chars_eq(&l, &to_chars("cookie")) {
            let mut scratch: Vec<String> = Vec::new();
            crate::session::merge_cookie_value(&mut st.cookies, &hs[i].1, &mut scratch);
        }
        if crate::event::is_auth_header_name_exec(&hs[i].0) {
            st.auth_headers.insert(hs[i].0.clone(), hs[i].1.clone());
        }
        i = i + 1;
    }
    proof {
        assert(hv.skip(hs@.len() as int).len() == 0);
    }

    let pl = lower_chars(&to_chars(parts.path.as_str()));
    let mc = to_chars(method.as_str());
    let hit = contains_chars(&pl, &to_chars("login")) || contains_chars(&pl, &to_chars("signin"))
        || (contains_chars(&pl, &to_chars("auth")) && (chars_eq(&mc, &to_chars("POST"))
        || contains_chars(&pl, &to_chars("token"))));
    if hit {
        if contains_chars(&pl, &to_chars("refresh")) || contains_chars(&pl, &to_chars("token")) {
            let ghost before = st.refresh_urls.deep_view();
            st.refresh_urls.push(url.clone());
            proof {
                assert(st.refresh_urls.deep_view() =~~= before.push(url@));
            }
        } else {
            let ghost before = st.login_urls.deep_view();
            st.login_urls.push(url.clone());
            proof {
                assert(st.login_urls.deep_view() =~~= before.push(url@));
            }
        }
    }

    let resp_ct: Option<String> = match &e.response_headers {
        Some(rh) => match crate::event::lookup_header(rh, "content-type") {
            Some(v) => Some(v.clone()),
            None => None,
        },
        None => None,
    };
    let shape: Option<JsonValue> = match &line.response_json {
        Some(v) => Some(extract_shape(v, 0)),
        None => None,
    };
    proof {
        assert((match resp_ct {
            Some(c) => c@,
            None => Seq::<char>::empty(),
        }) == resp_content_type(line.event));
    }
    upsert_endpoint_exec(
        &mut st.endpoints,
        &key,
        &method,
        url,
        &parts.query_names,
        &resp_ct,
        shape,
        authed,
        &ts,
    );
    proof {
        assert(st@ =~~= spec_scan_step(old(st)@, *line));
    }
}

// --- ordering the records ---

/// The catalog order: more often seen first, ties broken by pattern
/// ascending.
pub open spec fn ep_le(a: EndpointView, b: EndpointView) -> bool {
    a.times_seen > b.times_seen || (a.times_seen == b.times_seen && lex_le(a.pattern, b.pattern))
}

pub open spec fn spec_insert_ep(x: EndpointView, l: Seq<EndpointView>) -> Seq<EndpointView>
    decreases l.len(),
{
    if l.len() == 0 {
        seq![x]
    } else if ep_le(x, l[0]) {
        seq![x] + l
    } else {
        seq![l[0]] + spec_insert_ep(x, l.drop_first())
    }
}

/// Insertion sort of the records under the catalog order.
pub open spec fn spec_sort_eps(l: Seq<EndpointView>) -> Seq<EndpointView>
    decreases l.len(),
{
    if l.len() == 0 {
        Seq::empty()
    } else {
        spec_insert_ep(l[0], spec_sort_eps(l.drop_first()))
    }
}

pub open spec fn eps_sorted(l: Seq<EndpointView>) -> bool {
    forall|i: int, j: int| 0 <= i < j < l.len() ==> ep_le(l[i], l[j])
}

proof fn lemma_ep_le_total(a: EndpointView, b: EndpointView)
    ensures
        ep_le(a, b) || ep_le(b, a),
{
    crate::text::lemma_lex_total(a.pattern, b.pattern);
}

proof fn lemma_insert_elems(x: EndpointView, l: Seq<EndpointView>)
    ensures
        spec_insert_ep(x, l).len() == l.len() + 1,
        forall|k: int|
            0 <= k < spec_insert_ep(x, l).len() ==> spec_insert_ep(x, l)[k] == x || l.contains(
                spec_insert_ep(x, l)[k],
            ),
    decreases l.len(),
{
    if l.len() == 0 {
    } else if ep_le(x, l[0]) {
        assert forall|k: int| 0 <= k < spec_insert_ep(x, l).len() implies spec_insert_ep(x, l)[k]
            == x || l.contains(spec_insert_ep(x, l)[k]) by {
            if k > 0 {
                assert(spec_insert_ep(x, l)[k] == l[k - 1]);
            }
        }
    } else {
        lemma_insert_elems(x, l.drop_first());
        let r = spec_insert_ep(x, l);
        let rr = spec_insert_ep(x, l.drop_first());
        assert forall|k: int| 0 <= k < r.len() implies r[k] == x || l.contains(r[k]) by {
            if k == 0 {
                assert(r[0] == l[0]);
            } else {
                assert(r[k] == rr[k - 1]);
                if rr[k - 1] != x {
                    let w = choose|w: int|
                        0 <= w < l.drop_first().len() && l.drop_first()[w] == rr[k - 1];
                    assert(l[w + 1] == rr[k - 1]);
                }
            }
        }
    }
}

proof fn lemma_insert_sorted(x: EndpointView, l: Seq<EndpointView>)
    requires
        eps_sorted(l),
    ensures
        eps_sorted(spec_insert_ep(x, l)),
    decreases l.len(),
{
    if l.len() == 0 {
    } else if ep_le(x, l[0]) {
        let r = spec_insert_ep(x, l);
        assert forall|i: int, j: int| 0 <= i < j < r.len() implies ep_le(r[i], r[j]) by {
            if i == 0 {
                assert(r[j] == l[j - 1]);
                if j == 1 {
                } else {
                    assert(ep_le(l[0], l[j - 1]));
                    lemma_ep_le_trans(x, l[0], l[j - 1]);
                }
            } else {
                assert(r[i] == l[i - 1] && r[j] == l[j - 1]);
            }
        }
    } else {
        lemma_ep_le_total(x, l[0]);
        assert(ep_le(l[0], x));
        assert(eps_sorted(l.drop_first())) by {
            assert(forall|i: int, j: int|
                0 <= i < j < l.drop_first().len() ==> l.drop_first()[i] == l[i + 1]
                    && l.drop_first()[j] == l[j + 1]);
        }
        lemma_insert_sorted(x, l.drop_first());
        lemma_insert_elems(x, l.drop_first());
        let r = spec_insert_ep(x, l);
        let rr = spec_insert_ep(x, l.drop_first());
        assert forall|i: int, j: int| 0 <= i < j < r.len() implies ep_le(r[i], r[j]) by {
            if i == 0 {
                assert(r[j] == rr[j - 1]);
                if rr[j - 1] == x {
                } else {
                    let w = choose|w: int|
                        0 <= w < l.drop_first().len() && l.drop_first()[w] == rr[j - 1];
                    assert(l[w + 1] == rr[j - 1]);
                    assert(ep_le(l[0], l[w + 1]));
                }
            } else {
                assert(r[i] == rr[i - 1] && r[j] == rr[j - 1]);
            }
        }
    }
}

proof fn lemma_ep_le_trans(a: EndpointView, b: EndpointView, c: EndpointView)
    requires
        ep_le(a, b),
        ep_le(b, c),
    ensures
        ep_le(a, c),
{
    if a.times_seen == b.times_seen && b.times_seen == c.times_seen {
        crate::text::lemma_lex_trans(a.pattern, b.pattern, c.pattern);
    }
}

/// The sorted records are sorted under the catalog order.
pub proof fn lemma_sort_sorted(l: Seq<EndpointView>)
    ensures
        eps_sorted(spec_sort_eps(l)),
    decreases l.len(),
{
    if l.len() > 0 {
        lemma_sort_sorted(l.drop_first());
        lemma_insert_sorted(l[0], spec_sort_eps(l.drop_first()));
    }
}

fn ep_le_exec(a: &Endpoint, b: &Endpoint) -> (r: bool)
    ensures
        r == ep_le(a@, b@),
{
    if a.times_seen > b.times_seen {
        true
    } else if a.times_seen == b.times_seen {
        let ac = to_chars(a.pattern.as_str());
        let bc = to_chars(b.pattern.as_str());
        crate::text::lex_le_chars(&ac, &bc)
    } else {
        false
    }
}

fn insert_sorted_exec(x: Endpoint, l: Vec<Endpoint>) -> (r: Vec<Endpoint>)
    ensures
        eps_view(r@) == spec_insert_ep(x@, eps_view(l@)),
    decreases l@.len(),
{
    let ghost xv = x@;
    let ghost lv = eps_view(l@);
    if l.len() == 0 {
        let mut r = l;
        r.push(x);
        proof {
            assert(eps_view(r@) =~~= seq![xv]);
        }
        return r;
    }
    if ep_le_exec(&x, &l[0]) {
        proof {
            assert(lv[0] == l@[0]@);
        }
        let mut r = l;
        r.insert(0, x);
        proof {
            assert(eps_view(r@) =~~= seq![xv] + lv);
        }
        r
    } else {
        proof {
            assert(lv[0] == l@[0]@);
        }
        let mut l = l;
        let h = l.remove(0);
        let ghost hv = h@;
        proof {
            assert(eps_view(l@) =~~= lv.drop_first());
        }
        let mut r = insert_sorted_exec(x, l);
        let ghost rv = eps_view(r@);
        r.insert(0, h);
        proof {
            assert(eps_view(r@) =~~= seq![hv] + rv);
            assert(eps_view(r@) =~~= spec_insert_ep(xv, lv));
        }
        r
    }
}

/// Sort the records: most seen first, ties by pattern ascending.
pub fn sort_endpoints(eps: Vec<Endpoint>) -> (r: Vec<Endpoint>)
    ensures
        eps_view(r@) == spec_sort_eps(eps_view(eps@)),
    decreases eps@.len(),
{
    let ghost lv = eps_view(eps@);
    if eps.len() == 0 {
        proof {
            assert(eps_view(eps@) =~~= spec_sort_eps(lv));
        }
        return eps;
    }
    let mut eps = eps;
    let first = eps.remove(0);
    let ghost fv = first@;
    proof {
        assert(lv[0] == fv);
        assert(eps_view(eps@) =~~= lv.drop_first());
    }
    let sorted = sort_endpoints(eps);
    insert_sorted_exec(first, sorted)
}

// --- the inferred auth model ---

/// Cookie names that look like auth material.
pub open spec fn is_auth_cookie_name(n: Seq<char>) -> bool {
    ||| contains_seq(lower(n), "session"@)
    ||| contains_seq(lower(n), "sid"@)
    ||| contains_seq(lower(n), "token"@)
    ||| contains_seq(lower(n), "auth"@)
    ||| contains_seq(lower(n), "csrf"@)
    ||| contains_seq(lower(n), "xsrf"@)
    ||| contains_seq(lower(n), "jwt"@)
}

/// The auth-looking cookie names among the seen cookies, in seen order.
pub open spec fn spec_auth_cookie_names(cookies: Seq<(Seq<char>, Seq<char>)>) -> Seq<Seq<char>>
    decreases cookies.len(),
{
    if cookies.len() == 0 {
        Seq::empty()
    } else {
        let head: Seq<Seq<char>> = if is_auth_cookie_name(cookies[0].0) {
            seq![cookies[0].0]
        } else {
            Seq::empty()
        };
        head + spec_auth_cookie_names(cookies.drop_first())
    }
}

/// The scheme pattern of one auth header value: the token before the
/// first space followed by an ellipsis, or `opaque` when the value has
/// no space.
pub open spec fn scheme_of(v: Seq<char>) -> Seq<char> {
    let ps = crate::text::split_on(v, ' ');
    if ps.len() >= 2 {
        ps[0] + " ..."@
    } else {
        "opaque"@
    }
}

/// The mathematical form of one auth mechanism.
#[verifier::ext_equal]
pub struct AuthMechanismView {
    pub mech_type: Seq<char>,
    pub details: Seq<(Seq<char>, JsonView)>,
}

impl View for AuthMechanism {
    type V = AuthMechanismView;

    open spec fn view(&self) -> AuthMechanismView {
        AuthMechanismView {
            mech_type: self.mech_type@,
            details: crate::shape::json_field_views(self.details@),
        }
    }
}

pub open spec fn mechs_view(l: Seq<AuthMechanism>) -> Seq<AuthMechanismView> {
    Seq::new(l.len(), |i: int| l[i]@)
}

/// One header mechanism per seen auth header, in seen order.
pub open spec fn spec_header_mechs(hs: Seq<(Seq<char>, Seq<char>)>) -> Seq<AuthMechanismView>
    decreases hs.len(),
{
    if hs.len() == 0 {
        Seq::empty()
    } else {
        seq![
            AuthMechanismView {
                mech_type: "header"@,
                details: seq![
                    ("header"@, JsonView::Str(hs[0].0)),
                    ("pattern"@, JsonView::Str(scheme_of(hs[0].1))),
                ],
            },
        ] + spec_header_mechs(hs.drop_first())
    }
}

/// The inferred mechanisms: one cookie mechanism when any auth-looking
/// cookie was seen, then one header mechanism per seen auth header.
pub open spec fn spec_mechanisms(
    cookies: Seq<(Seq<char>, Seq<char>)>,
    auth_headers: Seq<(Seq<char>, Seq<char>)>,
) -> Seq<AuthMechanismView> {
    let names = spec_auth_cookie_names(cookies);
    (if names.len() > 0 {
        seq![
            AuthMechanismView {
                mech_type: "cookie"@,
                details: seq![
                    ("names"@, JsonView::Arr(names.map_values(|n: Seq<char>| JsonView::Str(n)))),
                ],
            },
        ]
    } else {
        Seq::<AuthMechanismView>::empty()
    }) + spec_header_mechs(auth_headers)
}

/// Duplicates removed, first occurrences kept in order.
pub open spec fn spec_dedup_from(l: Seq<Seq<char>>, seen: Seq<Seq<char>>) -> Seq<Seq<char>>
    decreases l.len(),
{
    if l.len() == 0 {
        Seq::empty()
    } else if seen.contains(l[0]) {
        spec_dedup_from(l.drop_first(), seen)
    } else {
        seq![l[0]] + spec_dedup_from(l.drop_first(), seen.push(l[0]))
    }
}

pub open spec fn spec_dedup(l: Seq<Seq<char>>) -> Seq<Seq<char>> {
    spec_dedup_from(l, Seq::empty())
}

fn is_auth_cookie_name_exec(n: &String) -> (r: bool)
    ensures
        r == is_auth_cookie_name(n@),
{
    let l = lower_chars(&to_chars(n.as_str()));
    contains_chars(&l, &to_chars("session")) || contains_chars(&l, &to_chars("sid"))
        || contains_chars(&l, &to_chars("token")) || contains_chars(&l, &to_chars("auth"))
        || contains_chars(&l, &to_chars("csrf")) || contains_chars(&l, &to_chars("xsrf"))
        || contains_chars(&l, &to_chars("jwt"))
}

/// Build the inferred auth model from a finished rescan.
pub fn build_auth_info(st: &ScanState) -> (r: AuthInfo)
    ensures
        mechs_view(r.mechanisms@) == spec_mechanisms(st@.cookies, st@.auth_headers),
        match r.login_url {
            Some(u) => st@.login_urls.len() > 0 && u@ == st@.login_urls[0],
            None => st@.login_urls.len() == 0,
        },
        r.observed_refresh_endpoints.deep_view() == spec_dedup(st@.refresh_urls),
        r.session_duration_estimate@ == "unknown"@,
{
    let ghost cv = st.cookies@;
    let mut names: Vec<String> = Vec::new();
    let cn = st.cookies.len();
    let mut i: usize = 0;
    proof {
        assert(cv.skip(0) =~= cv);
        assert(names.deep_view() =~~= Seq::<Seq<char>>::empty());
        assert(Seq::<Seq<char>>::empty() + spec_auth_cookie_names(cv) =~= spec_auth_cookie_names(
            cv,
        ));
    }
    while i < cn
        invariant
            i <= cn,
            cn == cv.len(),
            cv == st.cookies@,
            names.deep_view() + spec_auth_cookie_names(cv.skip(i as int))
                == spec_auth_cookie_names(cv),
        decreases cn - i,
    {
        let ghost pre = cv.skip(i as int);
        proof {
            assert(pre[0] == cv[i as int]);
            assert(pre.drop_first() =~= cv.skip(i as int + 1));
        }
        let key = st.cookies.key_at(i);
        if is_auth_cookie_name_exec(key) {
            let ghost before = names.deep_view();
            names.push(key.clone());
            proof {
                assert(names.deep_view() =~~= before.push(cv[i as int].0));
                assert(before.push(cv[i as int].0) + spec_auth_cookie_names(pre.drop_first()) =~= (
                before + (seq![pre[0].0] + spec_auth_cookie_names(pre.drop_first()))));
            }
        }
        i = i + 1;
    }
    proof {
        assert(cv.skip(cn as int).len() == 0);
        assert(names.deep_view() + Seq::<Seq<char>>::empty() =~= names.deep_view());
    }

    let mut mechanisms: Vec<AuthMechanism> = Vec::new();
    if names.len() > 0 {
        let ghost nv = names.deep_view();
        let mut items: Vec<JsonValue> = Vec::new();
        let mut j: usize = 0;
        proof {
            crate::shape::lemma_json_views_index(items@);
        }
        while j < names.len()
            invariant
                j <= names@.len(),
                nv.len() == names@.len(),
                nv == names.deep_view(),
                items@.len() == j,
                crate::shape::json_views(items@) == nv.take(j as int).map_values(
                    |n: Seq<char>| JsonView::Str(n),
                ),
            decreases names@.len() - j,
        {
            let ghost before = items@;
            items.push(JsonValue::Str(names[j].clone()));
            proof {
                crate::shape::lemma_json_views_index(items@);
                crate::shape::lemma_json_views_index(before);
                assert(nv[j as int] == names@[j as int]@);
                assert forall|k: int| 0 <= k < j + 1 implies crate::shape::json_views(items@)[k]
                    == nv.take(j as int + 1).map_values(|n: Seq<char>| JsonView::Str(n))[k] by {
                    if k < j {
                        assert(crate::shape::json_views(items@)[k] == crate::shape::json_views(
                            before,
                        )[k]);
                        assert(crate::shape::json_views(before)[k] == nv.take(j as int).map_values(
                            |n: Seq<char>| JsonView::Str(n),
                        )[k]);
                    } else {
                        assert(crate::shape::json_views(items@)[k] == crate::shape::json_view(
                            items@[k],
                        ));
                    }
                }
                assert(crate::shape::json_views(items@) =~= nv.take(j as int + 1).map_values(
                    |n: Seq<char>| JsonView::Str(n),
                ));
            }
            j = j + 1;
        }
        proof {
            assert(nv.take(names@.len() as int) =~= nv);
        }
        let mut details: Vec<(String, JsonValue)> = Vec::new();
        details.push((String::from_str("names"), JsonValue::Arr(items)));
        let ghost dv = details@;
        let mech = AuthMechanism { mech_type: String::from_str("cookie"), details };
        let ghost mv = mech@;
        mechanisms.push(mech);
        proof {
            crate::shape::lemma_json_field_views_index(dv);
        }
    }

    let ghost cookie_mechs: Seq<AuthMechanismView> = mechs_view(mechanisms@);
    proof {
        let ns = spec_auth_cookie_names(cv);
        if ns.len() > 0 {
            assert(mechanisms@.len() == 1);
            let mv = mechanisms@[0]@;
            assert(mv.mech_type == "cookie"@);
            crate::shape::lemma_json_field_views_index(mechanisms@[0].details@);
            assert(mv.details.len() == 1);
            assert(mv.details[0].0 == "names"@);
            assert(mv.details[0].1 == JsonView::Arr(
                names.deep_view().map_values(|n: Seq<char>| JsonView::Str(n)),
            ));
            assert(cookie_mechs =~~= spec_mechanisms(cv, Seq::empty()).take(1));
        }
    }

    let ghost av = st.auth_headers@;
    let ghost base = mechs_view(mechanisms@);
    let an = st.auth_headers.len();
    let mut k: usize = 0;
    proof {
        assert(av.skip(0) =~= av);
        assert(base + spec_header_mechs(av) =~= base + spec_header_mechs(av));
    }
    while k < an
        invariant
            k <= an,
            an == av.len(),
            av == st.auth_headers@,
            mechs_view(mechanisms@) + spec_header_mechs(av.skip(k as int)) == base
                + spec_header_mechs(av),
        decreases an - k,
    {
        let ghost pre = av.skip(k as int);
        proof {
            assert(pre[0] == av[k as int]);
            assert(pre.drop_first() =~= av.skip(k as int + 1));
        }
        let hname = st.auth_headers.key_at(k);
        let hval = st.auth_headers.val_at(k);
        let vc = to_chars(hval.as_str());
        let ps = split_chars(&vc, ' ');
        proof {
            lemma_split_len(vc@, ' ');
            assert(ps.deep_view()[0] == ps@[0]@);
        }
        let scheme: String = if ps.len() >= 2 {
            let mut sc: Vec<char> = Vec::new();
            crate::text::push_all(&mut sc, &ps[0]);
            crate::text::push_str_chars(&mut sc, " ...");
            chars_to_string(&sc)
        } else {
            String::from_str("opaque")
        };
        proof {
            assert(scheme@ == scheme_of(av[k as int].1));
        }
        let mut details: Vec<(String, JsonValue)> = Vec::new();
        details.push((String::from_str("header"), JsonValue::Str(hname.clone())));
        details.push((String::from_str("pattern"), JsonValue::Str(scheme)));
        let ghost dv = details@;
        let mech = AuthMechanism { mech_type: String::from_str("header"), details };
        let ghost mv = mech@;
        let ghost before = mechs_view(mechanisms@);
        mechanisms.push(mech);
        proof {
            crate::shape::lemma_json_field_views_index(dv);
            assert(mv =~~= spec_header_mechs(pre)[0]);
            assert(mechs_view(mechanisms@) =~~= before.push(mv));
            assert(before.push(spec_header_mechs(pre)[0]) + spec_header_mechs(pre.drop_first())
                =~= before + (seq![spec_header_mechs(pre)[0]] + spec_header_mechs(
                pre.drop_first(),
            )));
        }
        k = k + 1;
    }
    proof {
        assert(av.skip(an as int).len() == 0);
        assert(mechs_view(mechanisms@) + Seq::<AuthMechanismView>::empty() =~= mechs_view(
            mechanisms@,
        ));
        assert(mechs_view(mechanisms@) =~~= spec_mechanisms(cv, av));
    }

    let login_url: Option<String> = if st.login_urls.len() > 0 {
        proof {
            assert(st@.login_urls[0] == st.login_urls@[0]@);
        }
        Some(st.login_urls[0].clone())
    } else {
        None
    };

    let ghost rv = st.refresh_urls.deep_view();
    let mut refresh: Vec<String> = Vec::new();
    let mut m: usize = 0;
    proof {
        assert(rv.skip(0) =~= rv);
        assert(refresh.deep_view() =~~= Seq::<Seq<char>>::empty());
    }
    while m < st.refresh_urls.len()
        invariant
            m <= st.refresh_urls@.len(),
            rv.len() == st.refresh_urls@.len(),
            rv == st.refresh_urls.deep_view(),
            spec_dedup(rv) == refresh.deep_view() + spec_dedup_from(
                rv.skip(m as int),
                refresh.deep_view(),
            ),
        decreases st.refresh_urls@.len() - m,
    {
        let ghost pre = rv.skip(m as int);
        proof {
            assert(pre[0] == rv[m as int]);
            assert(rv[m as int] == st.refresh_urls@[m as int]@);
            assert(pre.drop_first() =~= rv.skip(m as int + 1));
        }
        if !crate::config::contains_string(&refresh, st.refresh_urls[m].as_str()) {
            let ghost before = refresh.deep_view();
            refresh.push(st.refresh_urls[m].clone());
            proof {
                assert(refresh.deep_view() =~~= before.push(rv[m as int]));
                assert(before.push(rv[m as int]) + spec_dedup_from(
                    pre.drop_first(),
                    before.push(rv[m as int]),
                ) =~= before + (seq![pre[0]] + spec_dedup_from(
                    pre.drop_first(),
                    before.push(pre[0]),
                )));
            }
        }
        m = m + 1;
    }
    proof {
        assert(rv.skip(st.refresh_urls@.len() as int).len() == 0);
        assert(refresh.deep_view() + Seq::<Seq<char>>::empty() =~= refresh.deep_view());
    }

    AuthInfo {
        mechanisms,
        login_url,
        observed_refresh_endpoints: refresh,
        session_duration_estimate: String::from_str("unknown"),
    }
}

/// Rescan a whole decoded log.
pub fn scan_lines(lines: &Vec<LogLine>) -> (st: ScanState)
    ensures
        st@ == spec_scan(empty_scan(), lines@),
{
    let mut st = ScanState::new();
    let mut i: usize = 0;
    proof {
        assert(lines@.skip(0) =~= lines@);
    }
    while i < lines.len()
        invariant
            i <= lines@.len(),
            spec_scan(empty_scan(), lines@) == spec_scan(st@, lines@.skip(i as int)),
        decreases lines@.len() - i,
    {
        proof {
            assert(lines@.skip(i as int)[0] == lines@[i as int]);
            assert(lines@.skip(i as int).drop_first() =~= lines@.skip(i as int + 1));
        }
        scan_line(&mut st, &lines[i]);
        i = i + 1;
    }
    proof {
        assert(lines@.skip(lines@.len() as int).len() == 0);
    }
    st
}

/// Everything one cataloging pass produces for an app.
pub struct CatalogOutputs {
    pub catalog: EndpointCatalog,
    pub auth: AuthInfo,
    pub examples: String,
}

/// One full cataloging pass: rescan the decoded log lines, sort the
/// records, infer the auth model, and render the example script from
/// the current session snapshot.
pub fn generate_for_app(
    lines: &Vec<LogLine>,
    session: &crate::session::SessionData,
    generated_at: &str,
) -> (r: CatalogOutputs)
    ensures
        ({
            let scan = spec_scan(empty_scan(), lines@);
            &&& eps_view(r.catalog.endpoints@) == spec_sort_eps(scan.endpoints)
            &&& mechs_view(r.auth.mechanisms@) == spec_mechanisms(scan.cookies, scan.auth_headers)
            &&& (match r.auth.login_url {
                Some(u) => scan.login_urls.len() > 0 && u@ == scan.login_urls[0],
                None => scan.login_urls.len() == 0,
            })
            &&& r.auth.observed_refresh_endpoints.deep_view() == spec_dedup(scan.refresh_urls)
            &&& r.auth.session_duration_estimate@ == "unknown"@
            &&& r.examples@ == crate::script::spec_examples(
                spec_sort_eps(scan.endpoints),
                session.cookies@,
                session.auth_headers@,
                session.user_agent@,
                generated_at@,
            )
        }),
{
    let st = scan_lines(lines);
    let auth = build_auth_info(&st);
    let sorted = sort_endpoints(st.endpoints);
    let catalog = EndpointCatalog { endpoints: sorted };
    let examples = crate::script::generate_examples(&catalog, session, generated_at);
    CatalogOutputs { catalog, auth, examples }
}

/// Re-running the cataloger on an unchanged log yields the identical
/// sorted catalog: the output is a function of the decoded lines
/// alone.
pub proof fn lemma_catalog_deterministic(l1: Seq<LogLine>, l2: Seq<LogLine>)
    requires
        l1 == l2,
    ensures
        spec_sort_eps(spec_scan(empty_scan(), l1).endpoints) == spec_sort_eps(
            spec_scan(empty_scan(), l2).endpoints,
        ),
{
}

/// The catalog order holds of every pass: records stand by
/// `times_seen` descending, ties broken by pattern ascending.
pub proof fn lemma_catalog_sorted(lines: Seq<LogLine>)
    ensures
        eps_sorted(spec_sort_eps(spec_scan(empty_scan(), lines).endpoints)),
{
    lemma_sort_sorted(spec_scan(empty_scan(), lines).endpoints);
}

proof fn lemma_insert_multiset(x: EndpointView, l: Seq<EndpointView>)
    ensures
        spec_insert_ep(x, l).to_multiset() == l.to_multiset().insert(x),
    decreases l.len(),
{
    broadcast use vstd::seq_lib::group_to_multiset_ensures;

    if l.len() == 0 {
        assert(seq![x] =~= Seq::<EndpointView>::empty().push(x));
        assert(Seq::<EndpointView>::empty().push(x).to_multiset() =~= Seq::<
            EndpointView,
        >::empty().to_multiset().insert(x));
        assert(l.to_multiset() =~= Seq::<EndpointView>::empty().to_multiset());
    } else if ep_le(x, l[0]) {
        assert(seq![x] + l =~= l.insert(0, x));
        vstd::seq_lib::lemma_multiset_commutative(seq![x], l);
        assert(seq![x].to_multiset() =~= Seq::<EndpointView>::empty().push(x).to_multiset());
        assert((seq![x] + l).to_multiset() =~= l.to_multiset().insert(x));
    } else {
        lemma_insert_multiset(x, l.drop_first());
        let rr = spec_insert_ep(x, l.drop_first());
        vstd::seq_lib::lemma_multiset_commutative(seq![l[0]], rr);
        vstd::seq_lib::lemma_multiset_commutative(seq![l[0]], l.drop_first());
        assert(seq![l[0]] + l.drop_first() =~= l);
        assert((seq![l[0]] + rr).to_multiset() =~= l.to_multiset().insert(x));
    }
}

/// The sorted records are exactly the scanned records: sorting
/// reorders, never adds or drops.
pub proof fn lemma_sort_permutes(l: Seq<EndpointView>)
    ensures
        spec_sort_eps(l).to_multiset() == l.to_multiset(),
    decreases l.len(),
{
    broadcast use vstd::seq_lib::group_to_multiset_ensures;

    if l.len() > 0 {
        lemma_sort_permutes(l.drop_first());
        lemma_insert_multiset(l[0], spec_sort_eps(l.drop_first()));
        assert(seq![l[0]] + l.drop_first() =~= l);
        vstd::seq_lib::lemma_multiset_commutative(seq![l[0]], l.drop_first());
        assert(seq![l[0]].to_multiset() =~= Seq::<EndpointView>::empty().push(l[0]).to_multiset());
        assert(spec_sort_eps(l).to_multiset() =~= l.to_multiset());
    }
}

} // verus!
