//! The retention trimmer: in logs other than the active session's,
//! bodies of well-sampled endpoints are replaced by a marker that
//! records the original byte length; a marker is never redacted again.
use vstd::prelude::*;
use crate::catalog::{EndpointCatalog, EndpointView, eps_view};
use crate::pattern::spec_normalize_path;
use crate::text::{starts_with, dec_str, to_chars, chars_to_string, starts_with_chars,
    dec_chars, push_str_chars, push_all};
use crate::urlinfo::{url_parse_of, parse_url};
use vstd::string::StringExecFns;
use vstd::string::StringSliceAdditionalSpecFns;
use vstd::utf8::encode_utf8;

verus! {

/// The patterns whose records were seen more than three times, in
/// catalog order.
pub open spec fn spec_well_sampled(eps: Seq<EndpointView>) -> Seq<Seq<char>>
    decreases eps.len(),
{
    if eps.len() == 0 {
        Seq::empty()
    } else {
        let head: Seq<Seq<char>> = if eps[0].times_seen > 3 {
            seq![eps[0].pattern]
        } else {
            Seq::empty()
        };
        head + spec_well_sampled(eps.drop_first())
    }
}

/// Collect the well-sampled patterns of a catalog.
pub fn well_sampled_patterns(catalog: &EndpointCatalog) -> (r: Vec<String>)
    ensures
        r.deep_view() == spec_well_sampled(eps_view(catalog.endpoints@)),
{
    let ghost ev = eps_view(catalog.endpoints@);
    let mut r: Vec<String> = Vec::new();
    let mut i: usize = 0;
    proof {
        assert(ev.skip(0) =~= ev);
        assert(r.deep_view() =~~= Seq::<Seq<char>>::empty());
        assert(Seq::<Seq<char>>::empty() + spec_well_sampled(ev) =~= spec_well_sampled(ev));
    }
    while i < catalog.endpoints.len()
        invariant
            i <= catalog.endpoints@.len(),
            ev.len() == catalog.endpoints@.len(),
            ev == eps_view(catalog.endpoints@),
            r.deep_view() + spec_well_sampled(ev.skip(i as int)) == spec_well_sampled(ev),
        decreases catalog.endpoints@.len() - i,
    {
        let ghost pre = ev.skip(i as int);
        proof {
            assert(pre[0] == ev[i as int]);
            assert(ev[i as int] == catalog.endpoints@[i as int]@);
            assert(pre.drop_first() =~= ev.skip(i as int + 1));
        }
        if catalog.endpoints[i].times_seen > 3 {
            let ghost before = r.deep_view();
            r.push(catalog.endpoints[i].pattern.clone());
            proof {
                assert(r.deep_view() =~~= before.push(ev[i as int].pattern));
                assert(before.push(pre[0].pattern) + spec_well_sampled(pre.drop_first()) =~= before
                    + (seq![pre[0].pattern] + spec_well_sampled(pre.drop_first())));
            }
        }
        i = i + 1;
    }
    proof {
        assert(ev.skip(ev.len() as int).len() == 0);
        assert(r.deep_view() + Seq::<Seq<char>>::empty() =~= r.deep_view());
    }
    r
}

/// A body that already carries the marker prefix.
pub open spec fn is_redacted(b: Seq<char>) -> bool {
    starts_with(b, "[trimmed"@)
}

/// The byte length of a string's UTF-8 form, as the machine reports
/// it.
pub open spec fn byte_len_of(s: Seq<char>) -> nat {
    (encode_utf8(s).len() as usize) as nat
}

/// The marker that replaces a body of the given byte length.
pub open spec fn spec_trim_marker(byte_len: nat) -> Seq<char> {
    "[trimmed: "@ + dec_str(byte_len) + " bytes]"@
}

/// A body after one redaction pass.
pub open spec fn spec_redact(b: Seq<char>, byte_len: nat) -> Seq<char> {
    if is_redacted(b) {
        b
    } else {
        spec_trim_marker(byte_len)
    }
}

/// A marker is itself redacted, so redacting twice changes nothing:
/// whatever lengths the two passes see, the second pass leaves the
/// first pass's result alone.
pub proof fn lemma_redact_idempotent(b: Seq<char>, n1: nat, n2: nat)
    ensures
        spec_redact(spec_redact(b, n1), n2) == spec_redact(b, n1),
{
    lemma_marker_redacted(n1);
}

/// The marker starts with the marker prefix.
pub proof fn lemma_marker_redacted(n: nat)
    ensures
        is_redacted(spec_trim_marker(n)),
{
    reveal_strlit("[trimmed");
    reveal_strlit("[trimmed: ");
    let m = spec_trim_marker(n);
    assert(m.subrange(0, 8) =~= "[trimmed"@);
}

/// Redact one body: `None` when it already carries the marker, else
/// the marker holding the body's byte length.
pub fn redact_body(b: &String) -> (r: Option<String>)
    ensures
        match r {
            Some(m) => !is_redacted(b@) && m@ == spec_trim_marker(byte_len_of(b@)),
            None => is_redacted(b@),
        },
{
    let bs = b.as_str();
    let bc = to_chars(bs);
    if starts_with_chars(&bc, &to_chars("[trimmed")) {
        return None;
    }
    let n = bs.len();
    proof {
        assert(n == byte_len_of(b@));
    }
    let mut m = to_chars("[trimmed: ");
    let d = dec_chars(n as u64);
    push_all(&mut m, &d);
    push_str_chars(&mut m, " bytes]");
    proof {
        assert(m@ == "[trimmed: "@ + dec_str(n as nat) + " bytes]"@);
        assert(m@ == spec_trim_marker(byte_len_of(b@)));
    }
    Some(chars_to_string(&m))
}

/// What the trimmer does to one log line: `None` when the line is left
/// alone (no parseable URL, a pattern that is not well sampled, or
/// nothing to redact), else the two body fields after redaction.
pub enum TrimOutcome {
    Unchanged,
    Rewritten { request_body: Option<String>, response_body: Option<String> },
}

/// The line's pattern, when its URL parses.
pub open spec fn spec_line_pattern(method: Option<Seq<char>>, url: Seq<char>) -> Option<Seq<char>> {
    match url_parse_of(url) {
        Some(t) => Some(
            (match method {
                Some(m) => m,
                None => "GET"@,
            }) + seq![' '] + spec_normalize_path(t.1),
        ),
        None => None,
    }
}

/// Whether one body field will change under redaction.
pub open spec fn body_changes(b: Option<Seq<char>>) -> bool {
    match b {
        Some(s) => !is_redacted(s),
        None => false,
    }
}

/// Decide the trimmer's rewrite of one line.  The line changes exactly
/// when its URL parses, its pattern is well sampled, and at least one
/// body is present and not yet redacted; then each present body is
/// redacted once.
pub fn trim_line(
    method: &Option<String>,
    url: &String,
    well_sampled: &Vec<String>,
    request_body: &Option<String>,
    response_body: &Option<String>,
) -> (r: TrimOutcome)
    ensures
        ({
            let mv: Option<Seq<char>> = match method {
                Some(m) => Some(m@),
                None => None,
            };
            let rqv: Option<Seq<char>> = match request_body {
                Some(b) => Some(b@),
                None => None,
            };
            let rsv: Option<Seq<char>> = match response_body {
                Some(b) => Some(b@),
                None => None,
            };
            let eligible = match spec_line_pattern(mv, url@) {
                Some(p) => well_sampled.deep_view().contains(p),
                None => false,
            };
            match r {
                TrimOutcome::Unchanged => !eligible || (!body_changes(rqv) && !body_changes(rsv)),
                TrimOutcome::Rewritten { request_body: rq, response_body: rs } => {
                    &&& eligible
                    &&& (body_changes(rqv) || body_changes(rsv))
                    &&& (match (request_body, rq) {
                        (Some(b), Some(nb)) => nb@ == spec_redact(b@, byte_len_of(b@)),
                        (None, None) => true,
                        _ => false,
                    })
                    &&& (match (response_body, rs) {
                        (Some(b), Some(nb)) => nb@ == spec_redact(b@, byte_len_of(b@)),
                        (None, None) => true,
                        _ => false,
                    })
                },
            }
        }),
{
    let parts = match parse_url(url.as_str()) {
        Some(p) => p,
        None => {
            return TrimOutcome::Unchanged;
        },
    };
    let mut keyc = match method {
        Some(m) => to_chars(m.as_str()),
        None => to_chars("GET"),
    };
    keyc.push(' ');
    let norm = crate::pattern::normalize_path(parts.path.as_str());
    push_str_chars(&mut keyc, norm.as_str());
    let key = chars_to_string(&keyc);
    proof {
        assert(key@ =~= (match method {
            Some(m) => m@,
            None => "GET"@,
        }) + seq![' '] + spec_normalize_path(url_parse_of(url@)->Some_0.1));
    }
    if !crate::config::contains_string(well_sampled, key.as_str()) {
        return TrimOutcome::Unchanged;
    }
    let new_req: Option<String> = match request_body {
        Some(b) => match redact_body(b) {
            Some(m) => Some(m),
            None => Some(b.clone()),
        },
        None => None,
    };
    let new_resp: Option<String> = match response_body {
        Some(b) => match redact_body(b) {
            Some(m) => Some(m),
            None => Some(b.clone()),
        },
        None => None,
    };
    let req_changed = match request_body {
        Some(b) => {
            let bc = to_chars(b.as_str());
            !starts_with_chars(&bc, &to_chars("[trimmed"))
        },
        None => false,
    };
    let resp_changed = match response_body {
        Some(b) => {
            let bc = to_chars(b.as_str());
            !starts_with_chars(&bc, &to_chars("[trimmed"))
        },
        None => false,
    };
    if req_changed || resp_changed {
        TrimOutcome::Rewritten { request_body: new_req, response_body: new_resp }
    } else {
        TrimOutcome::Unchanged
    }
}

} // verus!
