use harharhar::bridge::{dispatch_command, eval_id, eval_script, Command, DispatchPlan,
    EvalRegistry};
use harharhar::catalog::{build_auth_info, generate_for_app, scan_lines, sort_endpoints,
    EndpointCatalog, LogLine};
use harharhar::config::{add_domain_to_app, authed_domain_of, build_domain_map, clean_user_agent,
    find_app_for_domain, get_browser_ua, get_curl_ua, new_app_config, prune_domains, AppConfig};
use harharhar::event::{has_auth, CaptureEvent};
use harharhar::noise::should_skip_capture;
use harharhar::pattern::normalize_path;
use harharhar::router::{route_capture, should_append, CaptureCounter, RouteDecision,
    UnmappedBuffer};
use harharhar::session::{session_triggers, update_session_data, SessionData};
use harharhar::shape::{extract_shape, JsonValue};
use harharhar::strmap::StrMap;
use harharhar::trimmer::{redact_body, trim_line, well_sampled_patterns, TrimOutcome};

fn s(x: &str) -> String {
    x.to_string()
}

fn api_event(url: &str, headers: Vec<(String, String)>) -> CaptureEvent {
    CaptureEvent {
        entry_type: s("xhr"),
        url: Some(s(url)),
        method: Some(s("GET")),
        timestamp: Some(s("2024-01-01T00:00:00Z")),
        request_headers: Some(headers),
        response_headers: None,
        request_body: None,
        response_body: None,
    }
}

// --- path normalization ---

#[test]
fn normalize_numeric_segments() {
    assert_eq!(normalize_path("/users/123/posts/45"), "/users/{id}/posts/{id}");
}

#[test]
fn normalize_uuid_segment() {
    assert_eq!(
        normalize_path("/items/550e8400-e29b-41d4-a716-446655440000"),
        "/items/{id}"
    );
}

#[test]
fn normalize_long_hex_segment() {
    assert_eq!(normalize_path("/docs/0123456789abcdef01234567"), "/docs/{id}");
    assert_eq!(normalize_path("/docs/readme"), "/docs/readme");
}

#[test]
fn normalize_is_idempotent_on_examples() {
    for p in ["/users/123/posts/45", "/a//b/", "", "/items/550e8400-e29b-41d4-a716-446655440000"] {
        let once = normalize_path(p);
        assert_eq!(normalize_path(&once), once);
    }
}

// --- noise filtering ---

#[test]
fn skip_analytics_domain() {
    assert!(should_skip_capture("https://www.google-analytics.com/collect?x=1"));
    assert!(!should_skip_capture("https://api.example.com/v1/users"));
}

#[test]
fn skip_static_extension_with_query() {
    assert!(should_skip_capture("https://api.example.com/app.js?v=123"));
    assert!(!should_skip_capture("https://api.example.com/app.js.html"));
}

#[test]
fn skip_telemetry_path() {
    assert!(should_skip_capture("https://api.example.com/v1/telemetry/send"));
}

// --- auth evidence and routing ---

#[test]
fn requested_with_alone_is_dropped() {
    let e = api_event(
        "https://api.example.com/v1/data",
        vec![(s("x-requested-with"), s("XMLHttpRequest"))],
    );
    assert!(!has_auth(&e, &vec![]));
    let reg = StrMap::new();
    match route_capture(&e, &reg, &None, &vec![]) {
        RouteDecision::Dropped => {}
        _ => panic!("event without auth evidence must be dropped"),
    }
}

#[test]
fn authorization_header_routes_to_mapped_app() {
    let e = api_event(
        "https://api.example.com/v1/data",
        vec![(s("Authorization"), s("Bearer abc"))],
    );
    let mut reg = StrMap::new();
    reg.insert(s("api.example.com"), s("exampleapp"));
    match route_capture(&e, &reg, &None, &vec![]) {
        RouteDecision::Append { app } => assert_eq!(app, "exampleapp"),
        _ => panic!("mapped authed event must be appended"),
    }
}

#[test]
fn known_session_cookie_counts_as_auth() {
    let e = api_event(
        "https://api.example.com/v1/data",
        vec![(s("cookie"), s("sid=abc; theme=dark"))],
    );
    assert!(has_auth(&e, &vec![s("sid")]));
    assert!(!has_auth(&e, &vec![s("other")]));
}

#[test]
fn unmapped_with_current_app_auto_registers() {
    let e = api_event(
        "https://new.example.com/v1/data",
        vec![(s("x-csrf-token"), s("t"))],
    );
    let reg = StrMap::new();
    match route_capture(&e, &reg, &Some(s("exampleapp")), &vec![]) {
        RouteDecision::AutoRegister { app, domain } => {
            assert_eq!(app, "exampleapp");
            assert_eq!(domain, "new.example.com");
        }
        _ => panic!("authed unmapped event with a current app must auto-register"),
    }
}

#[test]
fn unmapped_without_current_app_buffers() {
    let e = api_event(
        "https://new.example.com/v1/data",
        vec![(s("authorization"), s("Bearer x"))],
    );
    let reg = StrMap::new();
    match route_capture(&e, &reg, &None, &vec![]) {
        RouteDecision::Buffer { domain } => assert_eq!(domain, "new.example.com"),
        _ => panic!("authed unmapped event without a current app must buffer"),
    }
}

#[test]
fn meta_event_passes_without_auth() {
    let mut e = api_event("https://api.example.com/page", vec![]);
    e.entry_type = s("navigation");
    let mut reg = StrMap::new();
    reg.insert(s("api.example.com"), s("exampleapp"));
    match route_capture(&e, &reg, &None, &vec![]) {
        RouteDecision::Append { app } => assert_eq!(app, "exampleapp"),
        _ => panic!("meta events pass without an auth check"),
    }
}

#[test]
fn xhr_start_is_dropped() {
    let mut e = api_event("https://api.example.com/x", vec![(s("authorization"), s("b"))]);
    e.entry_type = s("xhr-start");
    let reg = StrMap::new();
    match route_capture(&e, &reg, &None, &vec![]) {
        RouteDecision::Dropped => {}
        _ => panic!("xhr-start must be dropped"),
    }
}

// --- buffering and replay ---

#[test]
fn buffered_capture_replays_once_and_updates_session() {
    let e = api_event(
        "https://d.example.com/v1/x",
        vec![(s("cookie"), s("session_id=abc")), (s("authorization"), s("Bearer t"))],
    );
    let mut buf = UnmappedBuffer::new();
    buf.push(s("d.example.com"), e);
    let replay = buf.take(&s("d.example.com"));
    assert_eq!(replay.len(), 1);
    // appended exactly once
    assert!(should_append(&replay[0]));
    // auth evidence also triggers the session update
    let hs = replay[0].request_headers.as_ref().unwrap();
    assert!(session_triggers(hs));
    let mut session = SessionData::new();
    let names = update_session_data(
        &mut session,
        "d.example.com",
        "2024-01-01T00:00:00Z",
        "agent",
        hs,
        &vec![],
    );
    assert_eq!(names, vec![s("session_id")]);
    assert_eq!(session.domain, "d.example.com");
    assert_eq!(session.cookies.get(&s("session_id")), Some(&s("abc")));
    assert_eq!(session.auth_headers.get(&s("authorization")), Some(&s("Bearer t")));
    // the queue is gone
    let again = buf.take(&s("d.example.com"));
    assert_eq!(again.len(), 0);
}

// --- session merging ---

#[test]
fn cookie_pairs_are_trimmed_and_merged() {
    let mut session = SessionData::new();
    let hs = vec![(s("Cookie"), s(" a = 1 ; b=2; malformed "))];
    let names = update_session_data(&mut session, "d", "t", "ua", &hs, &vec![]);
    assert_eq!(names, vec![s("a"), s("b")]);
    assert_eq!(session.cookies.get(&s("a")), Some(&s("1")));
    assert_eq!(session.cookies.get(&s("b")), Some(&s("2")));
    assert_eq!(session.cookies.len(), 2);
    assert_eq!(session.user_agent, "ua");
}

#[test]
fn csrf_response_headers_are_collected() {
    let mut session = SessionData::new();
    let resp = vec![(s("X-CSRF-Token"), s("tok")), (s("content-type"), s("text/html"))];
    update_session_data(&mut session, "d", "t", "ua", &vec![], &resp);
    assert_eq!(session.csrf_tokens.get(&s("X-CSRF-Token")), Some(&s("tok")));
    assert_eq!(session.csrf_tokens.len(), 1);
}

#[test]
fn cookie_value_last_write_wins() {
    let mut session = SessionData::new();
    update_session_data(&mut session, "d", "t", "ua", &vec![(s("cookie"), s("a=1"))], &vec![]);
    update_session_data(&mut session, "d", "t2", "ua", &vec![(s("cookie"), s("a=2"))], &vec![]);
    assert_eq!(session.cookies.get(&s("a")), Some(&s("2")));
    assert_eq!(session.cookies.len(), 1);
}

// --- the cataloger ---

fn log_line(url: &str, method: &str, ts: &str) -> LogLine {
    let mut e = api_event(url, vec![(s("authorization"), s("Bearer abc def"))]);
    e.method = Some(s(method));
    e.timestamp = Some(s(ts));
    LogLine { event: e, response_json: None }
}

#[test]
fn catalog_groups_by_normalized_pattern() {
    let lines = vec![
        log_line("https://api.example.com/users/1", "GET", "t1"),
        log_line("https://api.example.com/users/2", "GET", "t2"),
        log_line("https://api.example.com/about", "GET", "t3"),
    ];
    let st = scan_lines(&lines);
    let sorted = sort_endpoints(st.endpoints);
    assert_eq!(sorted.len(), 2);
    assert_eq!(sorted[0].pattern, "GET /users/{id}");
    assert_eq!(sorted[0].times_seen, 2);
    assert_eq!(sorted[0].last_seen, "t2");
    assert_eq!(
        sorted[0].observed_urls,
        vec![s("https://api.example.com/users/1"), s("https://api.example.com/users/2")]
    );
    assert!(sorted[0].auth_required);
    assert_eq!(sorted[1].pattern, "GET /about");
    assert_eq!(sorted[1].times_seen, 1);
}

#[test]
fn catalog_ties_break_by_pattern_ascending() {
    let lines = vec![
        log_line("https://api.example.com/zebra", "GET", "t1"),
        log_line("https://api.example.com/alpha", "GET", "t2"),
    ];
    let st = scan_lines(&lines);
    let sorted = sort_endpoints(st.endpoints);
    assert_eq!(sorted[0].pattern, "GET /alpha");
    assert_eq!(sorted[1].pattern, "GET /zebra");
}

#[test]
fn catalog_rerun_is_identical() {
    let mk = || {
        vec![
            log_line("https://api.example.com/users/7", "GET", "t1"),
            log_line("https://api.example.com/login", "POST", "t2"),
            log_line("https://api.example.com/users/9", "GET", "t3"),
        ]
    };
    let session = SessionData::new();
    let a = generate_for_app(&mk(), &session, "stamp");
    let b = generate_for_app(&mk(), &session, "stamp");
    assert_eq!(a.catalog.endpoints.len(), b.catalog.endpoints.len());
    for (x, y) in a.catalog.endpoints.iter().zip(b.catalog.endpoints.iter()) {
        assert_eq!(x.pattern, y.pattern);
        assert_eq!(x.times_seen, y.times_seen);
        assert_eq!(x.observed_urls, y.observed_urls);
        assert_eq!(x.last_seen, y.last_seen);
    }
    assert_eq!(a.examples, b.examples);
}

#[test]
fn login_and_refresh_detection() {
    let lines = vec![
        log_line("https://api.example.com/login", "GET", "t1"),
        log_line("https://api.example.com/auth/token", "POST", "t2"),
    ];
    let st = scan_lines(&lines);
    let auth = build_auth_info(&st);
    assert_eq!(auth.login_url, Some(s("https://api.example.com/login")));
    assert_eq!(auth.observed_refresh_endpoints, vec![s("https://api.example.com/auth/token")]);
    assert_eq!(auth.session_duration_estimate, "unknown");
}

#[test]
fn auth_mechanisms_from_headers_and_cookies() {
    let mut e = api_event(
        "https://api.example.com/v1/x",
        vec![(s("authorization"), s("Bearer abc.def")), (s("cookie"), s("session_id=1; lang=en"))],
    );
    e.method = Some(s("GET"));
    let lines = vec![LogLine { event: e, response_json: None }];
    let st = scan_lines(&lines);
    let auth = build_auth_info(&st);
    assert_eq!(auth.mechanisms.len(), 2);
    assert_eq!(auth.mechanisms[0].mech_type, "cookie");
    match &auth.mechanisms[0].details[0].1 {
        JsonValue::Arr(names) => {
            assert_eq!(names.len(), 1);
            match &names[0] {
                JsonValue::Str(n) => assert_eq!(n, "session_id"),
                _ => panic!("cookie names are strings"),
            }
        }
        _ => panic!("cookie mechanism lists names"),
    }
    assert_eq!(auth.mechanisms[1].mech_type, "header");
    match &auth.mechanisms[1].details[1].1 {
        JsonValue::Str(p) => assert_eq!(p, "Bearer ..."),
        _ => panic!("header mechanism has a pattern"),
    }
}

#[test]
fn cookies_meta_entries_feed_auth_but_not_endpoints() {
    let mut e = api_event("https://api.example.com/ignored", vec![(s("cookie"), s("jwt_main=x"))]);
    e.entry_type = s("cookies");
    let lines = vec![LogLine { event: e, response_json: None }];
    let st = scan_lines(&lines);
    assert_eq!(st.endpoints.len(), 0);
    let auth = build_auth_info(&st);
    assert_eq!(auth.mechanisms.len(), 1);
    assert_eq!(auth.mechanisms[0].mech_type, "cookie");
}

// --- response shapes ---

#[test]
fn shape_replaces_leaves_with_tags() {
    let v = JsonValue::Obj(vec![
        (s("name"), JsonValue::Str(s("x"))),
        (s("count"), JsonValue::Num(s("3"))),
        (s("ok"), JsonValue::Bool(true)),
        (s("missing"), JsonValue::Null),
        (s("items"), JsonValue::Arr(vec![JsonValue::Num(s("1")), JsonValue::Num(s("2"))])),
    ]);
    let shaped = extract_shape(&v, 0);
    match shaped {
        JsonValue::Obj(fields) => {
            assert_eq!(fields.len(), 5);
            assert!(matches!(&fields[0].1, JsonValue::Str(t) if t == "str"));
            assert!(matches!(&fields[1].1, JsonValue::Str(t) if t == "num"));
            assert!(matches!(&fields[2].1, JsonValue::Str(t) if t == "bool"));
            assert!(matches!(&fields[3].1, JsonValue::Null));
            match &fields[4].1 {
                JsonValue::Arr(items) => assert_eq!(items.len(), 1),
                _ => panic!("arrays keep a one-element sample"),
            }
        }
        _ => panic!("objects stay objects"),
    }
}

#[test]
fn shape_caps_depth_and_keys() {
    let mut wide = Vec::new();
    for i in 0..12 {
        wide.push((format!("k{i}"), JsonValue::Null));
    }
    let shaped = extract_shape(&JsonValue::Obj(wide), 0);
    match shaped {
        JsonValue::Obj(fields) => assert_eq!(fields.len(), 10),
        _ => panic!("objects stay objects"),
    }
    let deep = JsonValue::Obj(vec![(
        s("a"),
        JsonValue::Obj(vec![(
            s("b"),
            JsonValue::Obj(vec![(s("c"), JsonValue::Obj(vec![(s("d"), JsonValue::Null)]))]),
        )]),
    )]);
    let shaped = extract_shape(&deep, 0);
    let mut v = &shaped;
    for _ in 0..3 {
        match v {
            JsonValue::Obj(fields) => v = &fields[0].1,
            _ => panic!("nested objects survive to the cap"),
        }
    }
    assert!(matches!(v, JsonValue::Str(t) if t == "..."));
}

// --- trimming ---

#[test]
fn redact_embeds_byte_length() {
    assert_eq!(redact_body(&s("hello")), Some(s("[trimmed: 5 bytes]")));
    assert_eq!(redact_body(&s("h\u{e9}llo")), Some(s("[trimmed: 6 bytes]")));
}

#[test]
fn trimming_twice_never_double_redacts() {
    let once = redact_body(&s("some body")).unwrap();
    assert_eq!(redact_body(&once), None);
}

#[test]
fn trim_line_rewrites_only_well_sampled_patterns() {
    let well = vec![s("GET /users/{id}")];
    let url = s("https://api.example.com/users/5");
    let body = Some(s("payload"));
    match trim_line(&Some(s("GET")), &url, &well, &body, &None) {
        TrimOutcome::Rewritten { request_body, response_body } => {
            assert_eq!(request_body, Some(s("[trimmed: 7 bytes]")));
            assert_eq!(response_body, None);
        }
        TrimOutcome::Unchanged => panic!("a well-sampled line with a fresh body is rewritten"),
    }
    // a second pass sees the marker and leaves the line alone
    let marker = Some(s("[trimmed: 7 bytes]"));
    match trim_line(&Some(s("GET")), &url, &well, &marker, &None) {
        TrimOutcome::Unchanged => {}
        _ => panic!("a marker is never redacted again"),
    }
    // a pattern outside the set is untouched
    match trim_line(&Some(s("POST")), &url, &well, &body, &None) {
        TrimOutcome::Unchanged => {}
        _ => panic!("only well-sampled patterns are trimmed"),
    }
}

#[test]
fn well_sampled_needs_more_than_three() {
    let mut lines = Vec::new();
    for i in 0..4 {
        lines.push(log_line("https://api.example.com/users/1", "GET", &format!("t{i}")));
    }
    lines.push(log_line("https://api.example.com/rare", "GET", "t9"));
    let st = scan_lines(&lines);
    let catalog = EndpointCatalog { endpoints: sort_endpoints(st.endpoints) };
    assert_eq!(well_sampled_patterns(&catalog), vec![s("GET /users/{id}")]);
}

// --- domain pruning ---

#[test]
fn pruning_keeps_seed_even_without_auth() {
    let domains = vec![s("seed.example.com"), s("other.example.com")];
    let kept = prune_domains(&domains, &vec![]);
    assert_eq!(kept, vec![s("seed.example.com")]);
}

#[test]
fn pruning_keeps_authed_domains_in_order() {
    let domains = vec![s("seed.com"), s("a.com"), s("b.com"), s("c.com")];
    let kept = prune_domains(&domains, &vec![s("c.com"), s("a.com")]);
    assert_eq!(kept, vec![s("seed.com"), s("a.com"), s("c.com")]);
}

#[test]
fn authed_domain_extraction() {
    let e = api_event("https://x.example.com/v1", vec![(s("cookie"), s("a=1"))]);
    assert_eq!(authed_domain_of(&e), Some(s("x.example.com")));
    let bare = api_event("https://x.example.com/v1", vec![]);
    assert_eq!(authed_domain_of(&bare), None);
    let mut meta = api_event("https://x.example.com/v1", vec![(s("cookie"), s("a=1"))]);
    meta.entry_type = s("ui-action");
    assert_eq!(authed_domain_of(&meta), None);
}

// --- registrations ---

#[test]
fn app_config_lifecycle() {
    let mut cfg = new_app_config(s("seed.com"), s("2024-01-01"));
    assert_eq!(cfg.domains, vec![s("seed.com")]);
    assert!(cfg.last_session.is_none());
    add_domain_to_app(&mut cfg, s("extra.com"));
    add_domain_to_app(&mut cfg, s("extra.com"));
    assert_eq!(cfg.domains, vec![s("seed.com"), s("extra.com")]);
}

#[test]
fn domain_lookup_across_apps() {
    let apps = vec![
        (s("first"), new_app_config(s("one.com"), s("t"))),
        (s("second"), new_app_config(s("two.com"), s("t"))),
    ];
    assert_eq!(find_app_for_domain(&apps, "two.com"), Some(s("second")));
    assert_eq!(find_app_for_domain(&apps, "three.com"), None);
    let map = build_domain_map(&apps);
    assert_eq!(map.get(&s("one.com")), Some(&s("first")));
    assert_eq!(map.get(&s("three.com")), None);
}

// --- the command bridge ---

#[test]
fn unknown_action_yields_structured_error() {
    let cmd = Command {
        action: s("explode"),
        url: None,
        selector: None,
        value: None,
        amount: None,
        direction: None,
        js: None,
        ref_id: None,
        index: None,
        message: None,
    };
    match dispatch_command(&cmd, &StrMap::new()) {
        DispatchPlan::WriteError { message } => assert_eq!(message, "unknown action: explode"),
        _ => panic!("unknown actions yield an error result"),
    }
}

#[test]
fn navigate_prefixes_scheme_and_sets_current() {
    let cmd = Command {
        action: s("navigate"),
        url: Some(s("app.example.com/home")),
        selector: None,
        value: None,
        amount: None,
        direction: None,
        js: None,
        ref_id: None,
        index: None,
        message: None,
    };
    let mut reg = StrMap::new();
    reg.insert(s("app.example.com"), s("exampleapp"));
    match dispatch_command(&cmd, &reg) {
        DispatchPlan::NavigateOpen { url, set_current } => {
            assert_eq!(url, "https://app.example.com/home");
            assert_eq!(set_current, Some(s("exampleapp")));
        }
        _ => panic!("navigate with a known domain opens the browser"),
    }
}

#[test]
fn navigate_without_url_is_an_error() {
    let cmd = Command {
        action: s("navigate"),
        url: None,
        selector: None,
        value: None,
        amount: None,
        direction: None,
        js: None,
        ref_id: None,
        index: None,
        message: None,
    };
    match dispatch_command(&cmd, &StrMap::new()) {
        DispatchPlan::WriteError { message } => assert_eq!(message, "missing url"),
        _ => panic!("navigate without a url is an error"),
    }
}

#[test]
fn click_script_quotes_the_selector() {
    let cmd = Command {
        action: s("click"),
        url: None,
        selector: Some(s("#btn\"x")),
        value: None,
        amount: None,
        direction: None,
        js: None,
        ref_id: None,
        index: None,
        message: None,
    };
    match dispatch_command(&cmd, &StrMap::new()) {
        DispatchPlan::RunScript { js, log } => {
            assert!(js.contains("document.querySelector(\"#btn\\\"x\")"));
            assert!(log.is_none());
        }
        _ => panic!("click runs a script"),
    }
}

#[test]
fn scroll_up_negates_the_distance() {
    let cmd = Command {
        action: s("scroll"),
        url: None,
        selector: None,
        value: None,
        amount: Some(250),
        direction: Some(s("up")),
        js: None,
        ref_id: None,
        index: None,
        message: None,
    };
    match dispatch_command(&cmd, &StrMap::new()) {
        DispatchPlan::RunScript { js, .. } => {
            assert_eq!(js, "window.scrollBy(0, -250); 'scrolled'");
        }
        _ => panic!("scroll runs a script"),
    }
}

#[test]
fn type_ref_logs_the_value() {
    let cmd = Command {
        action: s("type_ref"),
        url: None,
        selector: None,
        value: Some(s("hello")),
        amount: None,
        direction: None,
        js: None,
        ref_id: Some(4),
        index: None,
        message: None,
    };
    match dispatch_command(&cmd, &StrMap::new()) {
        DispatchPlan::RunScript { js, log } => {
            assert!(js.contains("refs[4]"));
            let log = log.expect("ref actions are logged");
            assert_eq!(log.action, "type_ref");
            assert_eq!(log.ref_id, 4);
            assert_eq!(log.value, Some(s("hello")));
        }
        _ => panic!("type_ref runs a script"),
    }
}

#[test]
fn eval_ids_and_wrapper() {
    assert_eq!(eval_id(0), "e0");
    assert_eq!(eval_id(17), "e17");
    let script = eval_script("2+2", "e1");
    assert!(script.starts_with("(function(){try{var __r=(2+2);"));
    assert!(script.contains("{id:\"e1\",result:__s||'null'}"));
    assert!(script.contains("'error: '+e.message"));
}

#[test]
fn eval_registry_slots_are_one_shot() {
    let mut reg = EvalRegistry::new();
    let a = reg.allocate();
    let b = reg.allocate();
    assert_ne!(a, b);
    assert!(reg.remove(a));
    assert!(!reg.remove(a));
    assert!(reg.remove(b));
    assert_eq!(reg.pending.len(), 0);
}

// --- counters, agents, configuration ---

#[test]
fn every_fiftieth_capture_triggers_the_batch() {
    let mut c = CaptureCounter::new();
    let mut triggers = Vec::new();
    for i in 0..101u32 {
        if c.tick() {
            triggers.push(i);
        }
    }
    assert_eq!(triggers, vec![50, 100]);
}

#[test]
fn user_agents() {
    assert!(get_browser_ua().contains("AppleWebKit/605.1.15"));
    assert_eq!(get_curl_ua(Some(s("custom"))), "custom");
    assert!(get_curl_ua(None).contains("Chrome/"));
}

#[test]
fn clean_user_agent_strips_quotes() {
    assert_eq!(
        clean_user_agent("  \"'Mozilla/5.0 Test'\"  "),
        Ok(s("Mozilla/5.0 Test"))
    );
    let err = clean_user_agent("definitely not a browser").unwrap_err();
    assert!(err.starts_with("Doesn't look like a valid user-agent string"));
}

// --- the generated example script ---

#[test]
fn examples_render_top_endpoints_with_session_material() {
    let lines = vec![
        log_line("https://api.example.com/users/1", "GET", "t1"),
        log_line("https://www.google-analytics.com/collect?x=1", "GET", "t2"),
    ];
    let mut session = SessionData::new();
    update_session_data(
        &mut session,
        "api.example.com",
        "now",
        "agent-string",
        &vec![(s("cookie"), s("sid=abc")), (s("authorization"), s("Bearer t"))],
        &vec![],
    );
    let out = generate_for_app(&lines, &session, "2024-01-01T00:00:00Z");
    let text = out.examples;
    assert!(text.starts_with("#!/usr/bin/env bash\n"));
    assert!(text.contains("# Generated: 2024-01-01T00:00:00Z\n"));
    assert!(text.contains("# GET /users/{id}\n"));
    assert!(text.contains("# Seen: 1 times, last: t1\n"));
    assert!(text.contains("curl 'https://api.example.com/users/1'"));
    assert!(text.contains("-H 'Cookie: sid=abc'"));
    assert!(text.contains("-H 'authorization: Bearer t'"));
    assert!(text.contains("-H 'User-Agent: agent-string'"));
    // the analytics endpoint is filtered out of the examples
    assert!(!text.contains("google-analytics"));
}

// --- record aggregation details ---

#[test]
fn observed_urls_cap_at_three_distinct() {
    let mut lines = Vec::new();
    for i in 0..5 {
        lines.push(log_line(&format!("https://api.example.com/users/{i}"), "GET", "t"));
    }
    let st = scan_lines(&lines);
    let sorted = sort_endpoints(st.endpoints);
    assert_eq!(sorted[0].times_seen, 5);
    assert_eq!(sorted[0].observed_urls.len(), 3);
}

#[test]
fn methods_and_query_params_deduplicate() {
    let mut lines = vec![
        log_line("https://api.example.com/search?q=x&page=1", "GET", "t1"),
        log_line("https://api.example.com/search?q=y", "GET", "t2"),
    ];
    let mut post = log_line("https://api.example.com/search", "POST", "t3");
    post.event.method = Some(s("POST"));
    lines.push(post);
    let st = scan_lines(&lines);
    let sorted = sort_endpoints(st.endpoints);
    // GET and POST differ in pattern key, so the GET record dominates
    assert_eq!(sorted[0].pattern, "GET /search");
    assert_eq!(sorted[0].methods, vec![s("GET")]);
    assert_eq!(sorted[0].query_params, vec![s("q"), s("page")]);
}

#[test]
fn response_shape_sample_first_wins() {
    let mut a = log_line("https://api.example.com/x", "GET", "t1");
    a.response_json = Some(JsonValue::Obj(vec![(s("first"), JsonValue::Null)]));
    let mut b = log_line("https://api.example.com/x", "GET", "t2");
    b.response_json = Some(JsonValue::Obj(vec![(s("second"), JsonValue::Null)]));
    let st = scan_lines(&vec![a, b]);
    let sorted = sort_endpoints(st.endpoints);
    match sorted[0].response_shape_sample.as_ref().unwrap() {
        JsonValue::Obj(fields) => assert_eq!(fields[0].0, "first"),
        _ => panic!("the sample keeps the first parsed response"),
    }
}

#[test]
fn response_content_types_from_exact_header() {
    let mut e = api_event("https://api.example.com/x", vec![(s("authorization"), s("b"))]);
    e.response_headers = Some(vec![(s("content-type"), s("application/json"))]);
    let st = scan_lines(&vec![LogLine { event: e, response_json: None }]);
    let sorted = sort_endpoints(st.endpoints);
    assert_eq!(sorted[0].response_content_types, vec![s("application/json")]);
}

#[test]
fn ui_action_record_fields() {
    let record = harharhar::bridge::ui_action_record(
        "click_ref",
        3,
        "button",
        "Send",
        "https://app.example.com/inbox",
        "2024-01-01T00:00:00Z",
        &Some(s("hello")),
    );
    match record {
        JsonValue::Obj(fields) => {
            assert_eq!(fields.len(), 8);
            assert_eq!(fields[0].0, "type");
            assert!(matches!(&fields[0].1, JsonValue::Str(t) if t == "ui-action"));
            assert!(matches!(&fields[2].1, JsonValue::Num(n) if n == "3"));
            assert!(matches!(&fields[7].1, JsonValue::Str(v) if v == "hello"));
        }
        _ => panic!("the record is a JSON object"),
    }
}

#[test]
fn cataloger_skips_xhr_start_lines() {
    let mut e = api_event("https://api.example.com/users/1", vec![(s("authorization"), s("b"))]);
    e.entry_type = s("xhr-start");
    let st = scan_lines(&vec![LogLine { event: e, response_json: None }]);
    assert_eq!(st.endpoints.len(), 0);
}

#[test]
fn append_step_passes_meta_events_with_noise_urls() {
    let mut e = api_event("https://www.google-analytics.com/collect?x=1", vec![]);
    e.entry_type = s("navigation");
    assert!(should_append(&e));
    e.entry_type = s("cookies");
    assert!(should_append(&e));
    // non-meta events still face the blocklist at the append step
    e.entry_type = s("xhr");
    assert!(!should_append(&e));
}
