//! Capture admission and routing: classify each raw event as admitted,
//! buffered or dropped, resolve its domain against the registry, and
//! keep the per-domain buffer of captures awaiting an app.
use vstd::prelude::*;
use crate::event::{CaptureEvent, is_meta_type, is_xhr_start, spec_has_auth, has_auth};
use crate::noise::{spec_should_skip, should_skip_capture};
use crate::strmap::{StrMap, spec_lookup};
use crate::text::{to_chars, chars_eq, lower};
use crate::urlinfo::{url_host_of, url_host};

verus! {

/// What the filter and router decide for one raw event.
pub enum RouteDecision {
    /// Not worth keeping, or unmapped without auth while an app is
    /// current.
    Dropped,
    /// The domain is registered: append to this app's log.
    Append { app: String },
    /// Unmapped, but the browsed app claims it: register the domain,
    /// then append.
    AutoRegister { app: String, domain: String },
    /// Unmapped and no app is current: buffer per domain.
    Buffer { domain: String },
}

/// The decision at the specification level.
pub enum SpecRoute {
    Dropped,
    Append(Seq<char>),
    AutoRegister(Seq<char>, Seq<char>),
    Buffer(Seq<char>),
}

pub open spec fn route_view(r: RouteDecision) -> SpecRoute {
    match r {
        RouteDecision::Dropped => SpecRoute::Dropped,
        RouteDecision::Append { app } => SpecRoute::Append(app@),
        RouteDecision::AutoRegister { app, domain } => SpecRoute::AutoRegister(app@, domain@),
        RouteDecision::Buffer { domain } => SpecRoute::Buffer(domain@),
    }
}

/// The static filter: drop `xhr-start` and events without a URL; meta
/// events pass; any other event must clear the noise blocklist and
/// carry auth evidence.
pub open spec fn spec_passes_filter(e: CaptureEvent, known: Seq<Seq<char>>) -> bool {
    &&& !is_xhr_start(e.entry_type@)
    &&& e.url is Some
    &&& (is_meta_type(e.entry_type@) || {
        &&& !spec_should_skip(e.url->Some_0@)
        &&& spec_has_auth(e, known)
    })
}

/// The full admission decision.
pub open spec fn spec_route(
    e: CaptureEvent,
    reg: Seq<(Seq<char>, Seq<char>)>,
    current: Option<Seq<char>>,
    known: Seq<Seq<char>>,
) -> SpecRoute {
    if !spec_passes_filter(e, known) {
        SpecRoute::Dropped
    } else {
        match url_host_of(e.url->Some_0@) {
            None => SpecRoute::Dropped,
            Some(d) => match spec_lookup(reg, d) {
                Some(app) => SpecRoute::Append(app),
                None => match current {
                    Some(app) => if spec_has_auth(e, known) {
                        SpecRoute::AutoRegister(app, d)
                    } else {
                        SpecRoute::Dropped
                    },
                    None => SpecRoute::Buffer(d),
                },
            },
        }
    }
}

/// Whether the event's type is one of the meta types.
pub fn is_meta_exec(t: &String) -> (r: bool)
    ensures
        r == is_meta_type(t@),
{
    let c = to_chars(t.as_str());
    chars_eq(&c, &to_chars("ui-action")) || chars_eq(&c, &to_chars("navigation")) || chars_eq(
        &c,
        &to_chars("cookies"),
    )
}

/// Classify one raw event against the registry, the browsed app and the
/// known session-cookie names.
pub fn route_capture(
    e: &CaptureEvent,
    registry: &StrMap,
    current_app: &Option<String>,
    known_cookies: &Vec<String>,
) -> (r: RouteDecision)
    ensures
        route_view(r) == spec_route(*e, registry@, current_app.deep_view(), known_cookies.deep_view()),
{
    let tc = to_chars(e.entry_type.as_str());
    if chars_eq(&tc, &to_chars("xhr-start")) {
        return RouteDecision::Dropped;
    }
    let url = match &e.url {
        Some(u) => u,
        None => {
            return RouteDecision::Dropped;
        },
    };
    let meta = is_meta_exec(&e.entry_type);
    let authed = has_auth(e, known_cookies);
    if !meta {
        if should_skip_capture(url.as_str()) {
            return RouteDecision::Dropped;
        }
        if !authed {
            return RouteDecision::Dropped;
        }
    }
    let domain = match url_host(url.as_str()) {
        Some(d) => d,
        None => {
            return RouteDecision::Dropped;
        },
    };
    match registry.get(&domain) {
        Some(app) => RouteDecision::Append { app: app.clone() },
        None => {
            match current_app {
                Some(app) => {
                    if authed {
                        RouteDecision::AutoRegister { app: app.clone(), domain }
                    } else {
                        RouteDecision::Dropped
                    }
                },
                None => RouteDecision::Buffer { domain },
            }
        },
    }
}

/// What the append step itself re-checks before writing a line:
/// `xhr-start` never lands, meta entries always do, and any other
/// event's URL must clear the noise blocklist.
pub open spec fn spec_should_append(e: CaptureEvent) -> bool {
    &&& !is_xhr_start(e.entry_type@)
    &&& (is_meta_type(e.entry_type@) || (match e.url {
        Some(u) => !spec_should_skip(u@),
        None => true,
    }))
}

/// Whether this event is written to the log when handed to the append
/// step.
pub fn should_append(e: &CaptureEvent) -> (r: bool)
    ensures
        r == spec_should_append(*e),
{
    let tc = to_chars(e.entry_type.as_str());
    if chars_eq(&tc, &to_chars("xhr-start")) {
        return false;
    }
    if is_meta_exec(&e.entry_type) {
        return true;
    }
    match &e.url {
        Some(u) => !should_skip_capture(u.as_str()),
        None => true,
    }
}

// --- the buffer of captures from unmapped domains ---

/// The buffer's contents at the specification level, in insertion
/// order: one queue per domain.
pub open spec fn buf_lookup(
    b: Seq<(Seq<char>, Seq<CaptureEvent>)>,
    d: Seq<char>,
) -> Option<Seq<CaptureEvent>>
    decreases b.len(),
{
    if b.len() == 0 {
        None
    } else if b[0].0 == d {
        Some(b[0].1)
    } else {
        buf_lookup(b.drop_first(), d)
    }
}

/// The buffer after appending `e` under `d`: the first queue for `d`
/// grows by one, or a fresh queue is added at the back.
pub open spec fn spec_buf_push(
    b: Seq<(Seq<char>, Seq<CaptureEvent>)>,
    d: Seq<char>,
    e: CaptureEvent,
) -> Seq<(Seq<char>, Seq<CaptureEvent>)>
    decreases b.len(),
{
    if b.len() == 0 {
        seq![(d, seq![e])]
    } else if b[0].0 == d {
        seq![(b[0].0, b[0].1.push(e))] + b.drop_first()
    } else {
        seq![b[0]] + spec_buf_push(b.drop_first(), d, e)
    }
}

/// The buffer after removing the queue for `d`, if any.
pub open spec fn spec_buf_remove(
    b: Seq<(Seq<char>, Seq<CaptureEvent>)>,
    d: Seq<char>,
) -> Seq<(Seq<char>, Seq<CaptureEvent>)>
    decreases b.len(),
{
    if b.len() == 0 {
        b
    } else if b[0].0 == d {
        b.drop_first()
    } else {
        seq![b[0]] + spec_buf_remove(b.drop_first(), d)
    }
}

/// Captures from unmapped domains, keyed by domain, each queue in
/// arrival order.
pub struct UnmappedBuffer {
    pub entries: Vec<(String, Vec<CaptureEvent>)>,
}

impl UnmappedBuffer {
    pub open spec fn view(&self) -> Seq<(Seq<char>, Seq<CaptureEvent>)> {
        Seq::new(self.entries@.len(), |i: int| (self.entries@[i].0@, self.entries@[i].1@))
    }

    pub fn new() -> (r: UnmappedBuffer)
        ensures
            r@ == Seq::<(Seq<char>, Seq<CaptureEvent>)>::empty(),
    {
        let r = UnmappedBuffer { entries: Vec::new() };
        proof {
            assert(r@ =~= Seq::<(Seq<char>, Seq<CaptureEvent>)>::empty());
        }
        r
    }

    /// Buffer one capture under its domain.
    pub fn push(&mut self, domain: String, e: CaptureEvent)
        ensures
            final(self)@ == spec_buf_push(old(self)@, domain@, e),
    {
        let ghost dv = domain@;
        let n = self.entries.len();
        let mut i: usize = 0;
        proof {
            assert(self@.skip(0) =~= self@);
            assert(self@.take(0) + spec_buf_push(self@, dv, e) =~= spec_buf_push(self@, dv, e));
        }
        while i < n
            invariant
                self@ == old(self)@,
                n == self@.len(),
                i <= n,
                domain@ == dv,
                forall|j: int| 0 <= j < i ==> self@[j].0 != dv,
                spec_buf_push(self@, dv, e) == self@.take(i as int) + spec_buf_push(
                    self@.skip(i as int),
                    dv,
                    e,
                ),
            decreases n - i,
        {
            let ghost pre = self@.skip(i as int);
            proof {
                assert(pre[0] == self@[i as int]);
                assert(pre.drop_first() =~= self@.skip(i as int + 1));
            }
            if self.entries[i].0 == *(&domain) {
                let ghost before = self@;
                let mut pair = self.entries.remove(i);
                pair.1.push(e);
                self.entries.insert(i, pair);
                proof {
                    assert(spec_buf_push(pre, dv, e) == seq![(pre[0].0, pre[0].1.push(e))]
                        + pre.drop_first());
                    assert(self@ =~= before.take(i as int) + (seq![(pre[0].0, pre[0].1.push(e))]
                        + pre.drop_first()));
                    assert(self@ =~= spec_buf_push(before, dv, e));
                }
                return ;
            }
            proof {
                assert(spec_buf_push(pre, dv, e) == seq![pre[0]] + spec_buf_push(
                    pre.drop_first(),
                    dv,
                    e,
                ));
                assert(self@.take(i as int) + (seq![pre[0]] + spec_buf_push(
                    self@.skip(i as int + 1),
                    dv,
                    e,
                )) =~= self@.take(i as int + 1) + spec_buf_push(self@.skip(i as int + 1), dv, e));
            }
            i = i + 1;
        }
        proof {
            assert(self@.skip(n as int).len() == 0);
            assert(spec_buf_push(self@.skip(n as int), dv, e) == seq![(dv, seq![e])]);
        }
        let ghost before = self@;
        let mut q: Vec<CaptureEvent> = Vec::new();
        q.push(e);
        let ghost qv = q@;
        self.entries.push((domain, q));
        proof {
            assert(qv =~= seq![e]);
            assert(self@ =~= before + seq![(dv, qv)]);
            assert(before.take(n as int) =~= before);
            assert(self@ =~= spec_buf_push(before, dv, e));
        }
    }

    /// Take the whole queue for a domain out of the buffer, in arrival
    /// order; an empty vector when the domain has none.
    pub fn take(&mut self, domain: &String) -> (r: Vec<CaptureEvent>)
        ensures
            final(self)@ == spec_buf_remove(old(self)@, domain@),
            match buf_lookup(old(self)@, domain@) {
                Some(q) => r@ == q,
                None => r@.len() == 0,
            },
    {
        let ghost dv = domain@;
        let n = self.entries.len();
        let mut i: usize = 0;
        proof {
            assert(self@.skip(0) =~= self@);
            assert(self@.take(0) + spec_buf_remove(self@, dv) =~= spec_buf_remove(self@, dv));
        }
        while i < n
            invariant
                self@ == old(self)@,
                n == self@.len(),
                i <= n,
                forall|j: int| 0 <= j < i ==> self@[j].0 != dv,
                spec_buf_remove(self@, dv) == self@.take(i as int) + spec_buf_remove(
                    self@.skip(i as int),
                    dv,
                ),
                buf_lookup(self@, dv) == buf_lookup(self@.skip(i as int), dv),
            decreases n - i,
        {
            let ghost pre = self@.skip(i as int);
            proof {
                assert(pre[0] == self@[i as int]);
                assert(pre.drop_first() =~= self@.skip(i as int + 1));
            }
            if self.entries[i].0 == *domain {
                let ghost before = self@;
                let pair = self.entries.remove(i);
                proof {
                    assert(spec_buf_remove(pre, dv) == pre.drop_first());
                    assert(self@ =~= before.take(i as int) + pre.drop_first());
                    assert(self@ =~= spec_buf_remove(before, dv));
                    assert(buf_lookup(pre, dv) == Some(pre[0].1));
                }
                return pair.1;
            }
            proof {
                assert(spec_buf_remove(pre, dv) == seq![pre[0]] + spec_buf_remove(
                    pre.drop_first(),
                    dv,
                ));
                assert(self@.take(i as int) + (seq![pre[0]] + spec_buf_remove(
                    self@.skip(i as int + 1),
                    dv,
                )) =~= self@.take(i as int + 1) + spec_buf_remove(self@.skip(i as int + 1), dv));
            }
            i = i + 1;
        }
        proof {
            assert(self@.skip(n as int).len() == 0);
            assert(self@.take(n as int) =~= self@);
            assert(spec_buf_remove(self@, dv) =~= self@);
        }
        Vec::new()
    }
}

// --- the periodic cataloging trigger ---

/// Counts admitted captures; every fiftieth one triggers the batch
/// passes (cataloging, trimming, pruning) over every app.
pub struct CaptureCounter {
    pub count: u32,
}

impl CaptureCounter {
    pub fn new() -> (r: CaptureCounter)
        ensures
            r.count == 0,
    {
        CaptureCounter { count: 0 }
    }

    /// Count one admitted capture; true when this one triggers the
    /// batch passes.
    pub fn tick(&mut self) -> (trigger: bool)
        ensures
            final(self).count == (if old(self).count == u32::MAX {
                0u32
            } else {
                (old(self).count + 1) as u32
            }),
            trigger == (old(self).count > 0 && old(self).count % 50 == 0),
    {
        let c = self.count;
        if c == u32::MAX {
            self.count = 0;
        } else {
            self.count = c + 1;
        }
        c > 0 && c % 50 == 0
    }
}

/// A buffered capture, replayed after its domain is registered, is
/// appended exactly once, and a non-meta one's auth evidence is always
/// enough to trigger the session update.
pub proof fn lemma_buffered_replay(e: CaptureEvent, known: Seq<Seq<char>>)
    requires
        spec_passes_filter(e, known),
    ensures
        spec_should_append(e),
        !is_meta_type(e.entry_type@) ==> e.request_headers is Some
            && crate::session::spec_session_triggers((e.request_headers->Some_0).deep_view()),
{
    if !is_meta_type(e.entry_type@) {
        lemma_nonmeta_replay_triggers(e, known);
    }
}

proof fn lemma_nonmeta_replay_triggers(e: CaptureEvent, known: Seq<Seq<char>>)
    requires
        spec_passes_filter(e, known),
        !is_meta_type(e.entry_type@),
    ensures
        e.request_headers is Some,
        crate::session::spec_session_triggers((e.request_headers->Some_0).deep_view()),
{
    assert(spec_has_auth(e, known));
    let hs = (e.request_headers->Some_0).deep_view();
    if exists|i: int| 0 <= i < hs.len() && crate::event::is_auth_header_name(hs[i].0) {
        let i = choose|i: int| 0 <= i < hs.len() && crate::event::is_auth_header_name(hs[i].0);
        assert(crate::session::is_session_trigger_name(hs[i].0));
    } else {
        assert(crate::event::spec_has_session_cookie(hs, known));
        let v = crate::event::spec_cookie_header_value(hs);
        assert(v is Some);
        crate::strmap::lemma_lookup_has_key(hs, "cookie"@);
        crate::strmap::lemma_lookup_has_key(hs, "Cookie"@);
        if crate::strmap::spec_lookup(hs, "cookie"@) is Some {
            let i = choose|i: int| 0 <= i < hs.len() && hs[i].0 == "cookie"@;
            assert(lower("cookie"@) =~= "cookie"@) by {
                reveal_strlit("cookie");
            }
            assert(crate::session::is_session_trigger_name(hs[i].0));
        } else {
            let i = choose|i: int| 0 <= i < hs.len() && hs[i].0 == "Cookie"@;
            assert(lower("Cookie"@) =~= "cookie"@) by {
                reveal_strlit("cookie");
                reveal_strlit("Cookie");
            }
            assert(crate::session::is_session_trigger_name(hs[i].0));
        }
    }
}

} // verus!
