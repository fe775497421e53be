//! App registrations and global settings: the domains an app owns, the
//! user-agent strings, and the pruning of domains that never carried
//! authenticated traffic.
use vstd::prelude::*;
use crate::text::{to_chars, chars_eq};
use vstd::string::StringExecFns;

verus! {

/// The global configuration: an optional user-agent override for
/// replay, and an optional capture port.
pub struct GlobalConfig {
    pub user_agent: Option<String>,
    pub capture_port: Option<u16>,
}

/// One app registration: its domains in registration order (the first
/// is the seed and is never pruned), the creation timestamp, and the
/// last session stamp.
pub struct AppConfig {
    pub domains: Vec<String>,
    pub created: String,
    pub last_session: Option<String>,
}

/// The browser engine's own user-agent string.
pub open spec fn spec_browser_ua() -> Seq<char> {
    "Mozilla/5.0 (Macintosh; Intel Mac OS X 10_15_7) AppleWebKit/605.1.15 (KHTML, like Gecko) Version/18.3 Safari/605.1.15"@
}

/// The fallback user-agent written into session snapshots for replay.
pub open spec fn spec_fallback_curl_ua() -> Seq<char> {
    "Mozilla/5.0 (Macintosh; Intel Mac OS X 10_15_7) AppleWebKit/537.36 (KHTML, like Gecko) Chrome/144.0.0.0 Safari/537.36"@
}

/// The user-agent given to the browser view.
pub fn get_browser_ua() -> (r: String)
    ensures
        r@ == spec_browser_ua(),
{
    String::from_str(
        "Mozilla/5.0 (Macintosh; Intel Mac OS X 10_15_7) AppleWebKit/605.1.15 (KHTML, like Gecko) Version/18.3 Safari/605.1.15",
    )
}

/// The user-agent for replay: the configured override when present,
/// else the fallback.
pub fn get_curl_ua(configured: Option<String>) -> (r: String)
    ensures
        match configured {
            Some(ua) => r@ == ua@,
            None => r@ == spec_fallback_curl_ua(),
        },
{
    match configured {
        Some(ua) => ua,
        None => String::from_str(
            "Mozilla/5.0 (Macintosh; Intel Mac OS X 10_15_7) AppleWebKit/537.36 (KHTML, like Gecko) Chrome/144.0.0.0 Safari/537.36",
        ),
    }
}

/// A fresh registration for one app, seeded with one domain.
pub fn new_app_config(domain: String, created: String) -> (r: AppConfig)
    ensures
        r.domains.deep_view() == seq![domain@],
        r.created == created,
        r.last_session is None,
{
    let ghost dv = domain@;
    let mut domains: Vec<String> = Vec::new();
    domains.push(domain);
    proof {
        assert(domains.deep_view() =~~= seq![dv]);
    }
    AppConfig { domains, created, last_session: None }
}

/// Whether `list` holds a string equal to `d`.
pub fn contains_string(list: &Vec<String>, d: &str) -> (r: bool)
    ensures
        r == list.deep_view().contains(d@),
{
    let dc = to_chars(d);
    let mut i: usize = 0;
    while i < list.len()
        invariant
            i <= list@.len(),
            list.deep_view().len() == list@.len(),
            dc@ == d@,
            forall|k: int| 0 <= k < i ==> list.deep_view()[k] != d@,
        decreases list@.len() - i,
    {
        proof {
            assert(list.deep_view()[i as int] == list@[i as int]@);
        }
        let c = to_chars(list[i].as_str());
        if chars_eq(&c, &dc) {
            assert(list.deep_view().contains(d@));
            return true;
        }
        i = i + 1;
    }
    proof {
        if list.deep_view().contains(d@) {
            let w = choose|w: int| 0 <= w < list.deep_view().len() && list.deep_view()[w] == d@;
        }
    }
    false
}

/// Add a domain to a registration unless it is already there.
pub fn add_domain_to_app(config: &mut AppConfig, domain: String)
    ensures
        final(config).created == old(config).created,
        final(config).last_session == old(config).last_session,
        final(config).domains.deep_view() == (if old(config).domains.deep_view().contains(domain@) {
            old(config).domains.deep_view()
        } else {
            old(config).domains.deep_view().push(domain@)
        }),
{
    let ghost dv = domain@;
    if !contains_string(&config.domains, domain.as_str()) {
        let ghost before = config.domains.deep_view();
        config.domains.push(domain);
        proof {
            assert(config.domains.deep_view() =~~= before.push(dv));
        }
    }
}

/// Which domains survive pruning: the seed (first) domain always, and
/// any domain seen with authenticated traffic.
pub open spec fn spec_prune(domains: Seq<Seq<char>>, authed: Seq<Seq<char>>) -> Seq<Seq<char>>
    decreases domains.len(),
{
    spec_prune_from(domains, authed, domains)
}

/// The suffix `rest` of the domain list filtered against the whole
/// list's seed and the authenticated set.
pub open spec fn spec_prune_from(
    domains: Seq<Seq<char>>,
    authed: Seq<Seq<char>>,
    rest: Seq<Seq<char>>,
) -> Seq<Seq<char>>
    decreases rest.len(),
{
    if rest.len() == 0 {
        Seq::empty()
    } else {
        let keep = rest[0] == domains[0] || authed.contains(rest[0]);
        let tail = spec_prune_from(domains, authed, rest.drop_first());
        if keep {
            seq![rest[0]] + tail
        } else {
            tail
        }
    }
}

/// Keep only the seed domain and domains with observed authenticated
/// traffic, preserving order.
pub fn prune_domains(domains: &Vec<String>, authed: &Vec<String>) -> (r: Vec<String>)
    requires
        domains@.len() > 0,
    ensures
        r.deep_view() == spec_prune(domains.deep_view(), authed.deep_view()),
{
    let ghost dv = domains.deep_view();
    let ghost av = authed.deep_view();
    let mut r: Vec<String> = Vec::new();
    let mut i: usize = 0;
    proof {
        assert(dv.skip(0) =~= dv);
    }
    while i < domains.len()
        invariant
            i <= domains@.len(),
            dv.len() == domains@.len(),
            dv.len() > 0,
            spec_prune(dv, av) == r.deep_view() + spec_prune_from(dv, av, dv.skip(i as int)),
        decreases domains@.len() - i,
    {
        let ghost pre = dv.skip(i as int);
        proof {
            assert(pre[0] == dv[i as int]);
            assert(pre.drop_first() =~= dv.skip(i as int + 1));
            assert(dv[i as int] == domains@[i as int]@);
            assert(dv[0] == domains@[0]@);
        }
        let dcur = to_chars(domains[i].as_str());
        let seed = to_chars(domains[0].as_str());
        let keep = chars_eq(&dcur, &seed) || contains_string(authed, domains[i].as_str());
        if keep {
            let ghost before = r.deep_view();
            r.push(domains[i].clone());
            proof {
                assert(r.deep_view() =~~= before.push(dv[i as int]));
                assert(before.push(dv[i as int]) + spec_prune_from(dv, av, dv.skip(i as int + 1))
                    =~= before + (seq![pre[0]] + spec_prune_from(dv, av, pre.drop_first())));
            }
        }
        i = i + 1;
    }
    proof {
        assert(dv.skip(dv.len() as int).len() == 0);
        assert(r.deep_view() + spec_prune_from(dv, av, dv.skip(i as int)) =~= r.deep_view());
    }
    r
}

/// The registrations as the registry sees them: each app's name with
/// its domains.
pub open spec fn apps_view(l: Seq<(String, AppConfig)>) -> Seq<(Seq<char>, Seq<Seq<char>>)> {
    Seq::new(l.len(), |i: int| (l[i].0@, l[i].1.domains.deep_view()))
}

/// One app's domains bound to its name, front to back.
pub open spec fn spec_bind_domains(
    m: Seq<(Seq<char>, Seq<char>)>,
    app: Seq<char>,
    ds: Seq<Seq<char>>,
) -> Seq<(Seq<char>, Seq<char>)>
    decreases ds.len(),
{
    if ds.len() == 0 {
        m
    } else {
        spec_bind_domains(crate::strmap::spec_upsert(m, ds[0], app), app, ds.drop_first())
    }
}

/// The domain map rebuilt from every registration in order: a later
/// registration of the same domain wins.
pub open spec fn spec_domain_map(
    m: Seq<(Seq<char>, Seq<char>)>,
    apps: Seq<(Seq<char>, Seq<Seq<char>>)>,
) -> Seq<(Seq<char>, Seq<char>)>
    decreases apps.len(),
{
    if apps.len() == 0 {
        m
    } else {
        spec_domain_map(spec_bind_domains(m, apps[0].0, apps[0].1), apps.drop_first())
    }
}

/// Rebuild the runtime domain map from all registrations.
pub fn build_domain_map(apps: &Vec<(String, AppConfig)>) -> (r: crate::strmap::StrMap)
    ensures
        r@ == spec_domain_map(Seq::empty(), apps_view(apps@)),
{
    let ghost av = apps_view(apps@);
    let mut r = crate::strmap::StrMap::new();
    let mut i: usize = 0;
    proof {
        assert(av.skip(0) =~= av);
    }
    while i < apps.len()
        invariant
            i <= apps@.len(),
            av.len() == apps@.len(),
            av == apps_view(apps@),
            spec_domain_map(Seq::empty(), av) == spec_domain_map(r@, av.skip(i as int)),
        decreases apps@.len() - i,
    {
        let ghost pre = av.skip(i as int);
        proof {
            assert(pre[0] == av[i as int]);
            assert(av[i as int] == (apps@[i as int].0@, apps@[i as int].1.domains.deep_view()));
            assert(pre.drop_first() =~= av.skip(i as int + 1));
        }
        let ghost dv = apps@[i as int].1.domains.deep_view();
        let ghost r0 = r@;
        let domains = &apps[i].1.domains;
        let name = &apps[i].0;
        let mut j: usize = 0;
        proof {
            assert(dv.skip(0) =~= dv);
        }
        while j < domains.len()
            invariant
                j <= domains@.len(),
                dv.len() == domains@.len(),
                dv == domains.deep_view(),
                name@ == apps@[i as int].0@,
                spec_bind_domains(r@, name@, dv.skip(j as int)) == spec_bind_domains(
                    r0,
                    name@,
                    dv,
                ),
            decreases domains@.len() - j,
        {
            proof {
                assert(dv.skip(j as int)[0] == dv[j as int]);
                assert(dv[j as int] == domains@[j as int]@);
                assert(dv.skip(j as int).drop_first() =~= dv.skip(j as int + 1));
            }
            r.insert(domains[j].clone(), name.clone());
            j = j + 1;
        }
        proof {
            assert(dv.skip(domains@.len() as int).len() == 0);
        }
        i = i + 1;
    }
    proof {
        assert(av.skip(apps@.len() as int).len() == 0);
    }
    r
}

/// The app a domain belongs to: the first registration, in listing
/// order, whose domains hold it.
pub open spec fn spec_find_app(
    apps: Seq<(Seq<char>, Seq<Seq<char>>)>,
    d: Seq<char>,
) -> Option<Seq<char>>
    decreases apps.len(),
{
    if apps.len() == 0 {
        None
    } else if apps[0].1.contains(d) {
        Some(apps[0].0)
    } else {
        spec_find_app(apps.drop_first(), d)
    }
}

/// Find which app a domain belongs to, if any.
pub fn find_app_for_domain(apps: &Vec<(String, AppConfig)>, domain: &str) -> (r: Option<String>)
    ensures
        match r {
            Some(a) => spec_find_app(apps_view(apps@), domain@) == Some(a@),
            None => spec_find_app(apps_view(apps@), domain@) is None,
        },
{
    let ghost av = apps_view(apps@);
    let mut i: usize = 0;
    proof {
        assert(av.skip(0) =~= av);
    }
    while i < apps.len()
        invariant
            i <= apps@.len(),
            av.len() == apps@.len(),
            av == apps_view(apps@),
            spec_find_app(av, domain@) == spec_find_app(av.skip(i as int), domain@),
        decreases apps@.len() - i,
    {
        let ghost pre = av.skip(i as int);
        proof {
            assert(pre[0] == av[i as int]);
            assert(av[i as int] == (apps@[i as int].0@, apps@[i as int].1.domains.deep_view()));
            assert(pre.drop_first() =~= av.skip(i as int + 1));
        }
        if contains_string(&apps[i].1.domains, domain) {
            return Some(apps[i].0.clone());
        }
        i = i + 1;
    }
    proof {
        assert(av.skip(apps@.len() as int).len() == 0);
    }
    None
}

/// The domain the pruner counts as authenticated for one log line: a
/// non-meta event with an auth or cookie header and a URL with a host.
pub open spec fn spec_authed_domain(e: crate::event::CaptureEvent) -> Option<Seq<char>> {
    if crate::event::is_meta_type(e.entry_type@) {
        None
    } else {
        match e.url {
            None => None,
            Some(u) => {
                let hs = match e.request_headers {
                    Some(h) => h.deep_view(),
                    None => Seq::empty(),
                };
                if crate::catalog::line_has_auth(hs) {
                    crate::urlinfo::url_host_of(u@)
                } else {
                    None
                }
            },
        }
    }
}

/// The domain of one log line that carried authenticated traffic, if
/// any.
pub fn authed_domain_of(e: &crate::event::CaptureEvent) -> (r: Option<String>)
    ensures
        match r {
            Some(d) => spec_authed_domain(*e) == Some(d@),
            None => spec_authed_domain(*e) is None,
        },
{
    if crate::router::is_meta_exec(&e.entry_type) {
        return None;
    }
    let u = match &e.url {
        Some(u) => u,
        None => {
            return None;
        },
    };
    let empty_hs: Vec<(String, String)> = Vec::new();
    let hs: &Vec<(String, String)> = match &e.request_headers {
        Some(h) => h,
        None => &empty_hs,
    };
    proof {
        if e.request_headers is None {
            assert(hs.deep_view() =~~= Seq::<(Seq<char>, Seq<char>)>::empty());
        }
    }
    if !crate::catalog::line_has_auth_exec(hs) {
        return None;
    }
    crate::urlinfo::url_host(u.as_str())
}

/// A string wrapped in one matching pair of quotes.
pub open spec fn is_quote_pair(s: Seq<char>) -> bool {
    s.len() >= 2 && ((s[0] == '"' && s.last() == '"') || (s[0] == '\'' && s.last() == '\'') || (
    s[0] == '`' && s.last() == '`'))
}

/// A pasted user-agent with every layer of matching quotes stripped
/// and trimmed away.
pub open spec fn spec_strip_quotes(s: Seq<char>) -> Seq<char>
    decreases s.len(),
    via strip_quotes_decreases
{
    if is_quote_pair(s) {
        spec_strip_quotes(crate::text::trim(s.subrange(1, s.len() - 1)))
    } else {
        s
    }
}

#[via_fn]
proof fn strip_quotes_decreases(s: Seq<char>) {
    if is_quote_pair(s) {
        crate::text::lemma_trim_len(s.subrange(1, s.len() - 1));
    }
}

/// Clean a pasted user-agent: trim it, strip matching quote pairs,
/// and accept it only when it holds `Mozilla`.
pub fn clean_user_agent(ua: &str) -> (r: Result<String, String>)
    ensures
        ({
            let cleaned = spec_strip_quotes(crate::text::trim(ua@));
            match r {
                Ok(u) => u@ == cleaned && crate::text::contains_seq(cleaned, "Mozilla"@),
                Err(e) => !crate::text::contains_seq(cleaned, "Mozilla"@) && e@
                    == "Doesn't look like a valid user-agent string. It should start with 'Mozilla/5.0'"@,
            }
        }),
{
    let uc = to_chars(ua);
    let mut cur = crate::text::trim_chars(&uc);
    proof {
        crate::text::lemma_trim_len(uc@);
    }
    loop
        invariant
            spec_strip_quotes(crate::text::trim(ua@)) == spec_strip_quotes(cur@),
        decreases cur@.len(),
    {
        let n = cur.len();
        let pair = n >= 2 && ((cur[0] == '"' && cur[n - 1] == '"') || (cur[0] == '\'' && cur[n - 1]
            == '\'') || (cur[0] == '`' && cur[n - 1] == '`'));
        if !pair {
            break ;
        }
        let mut inner: Vec<char> = Vec::new();
        let mut i: usize = 1;
        while i < n - 1
            invariant
                1 <= i <= n - 1,
                n == cur@.len(),
                inner@ == cur@.subrange(1, i as int),
            decreases n - i,
        {
            inner.push(cur[i]);
            assert(inner@ =~= cur@.subrange(1, i as int + 1));
            i = i + 1;
        }
        proof {
            assert(inner@ =~= cur@.subrange(1, cur@.len() - 1));
            crate::text::lemma_trim_len(inner@);
        }
        cur = crate::text::trim_chars(&inner);
    }
    let has_mozilla = crate::text::contains_chars(&cur, &to_chars("Mozilla"));
    if has_mozilla {
        Ok(crate::text::chars_to_string(&cur))
    } else {
        Err(
            String::from_str(
                "Doesn't look like a valid user-agent string. It should start with 'Mozilla/5.0'",
            ),
        )
    }
}

/// The seed domain is never pruned: it stands first in the pruned list
/// whatever the authenticated set holds.
pub proof fn lemma_prune_keeps_seed(domains: Seq<Seq<char>>, authed: Seq<Seq<char>>)
    requires
        domains.len() > 0,
    ensures
        spec_prune(domains, authed).len() > 0,
        spec_prune(domains, authed)[0] == domains[0],
{
    assert(domains.skip(0) =~= domains);
    assert(spec_prune_from(domains, authed, domains)[0] == domains[0]);
}

} // verus!
