//! URL path normalization: identifier-shaped path segments are replaced
//! by a placeholder so that requests differing only in ids share one
//! endpoint pattern.
use vstd::prelude::*;
use crate::text::{is_digit, is_hex_digit, split_on, join_with, lemma_split_len, lemma_split_parts_no_sep, lemma_split_join, to_chars, split_chars, join_chars, chars_to_string, push_all};

verus! {

pub open spec fn all_digits(s: Seq<char>) -> bool {
    forall|i: int| 0 <= i < s.len() ==> is_digit(s[i])
}

pub open spec fn all_hex_or_dash(s: Seq<char>) -> bool {
    forall|i: int| 0 <= i < s.len() ==> is_hex_digit(s[i]) || s[i] == '-'
}

pub open spec fn all_hex(s: Seq<char>) -> bool {
    forall|i: int| 0 <= i < s.len() ==> is_hex_digit(s[i])
}

/// The placeholder written in place of an identifier-shaped segment.
pub open spec fn id_marker() -> Seq<char> {
    seq!['{', 'i', 'd', '}']
}

/// Whether a non-empty segment is identifier-shaped: all decimal
/// digits, UUID-shaped (32 or more hex digits and dashes), or a long
/// hex run (20 or more hex digits).
pub open spec fn seg_is_id(seg: Seq<char>) -> bool {
    ||| all_digits(seg)
    ||| (seg.len() >= 32 && all_hex_or_dash(seg))
    ||| (seg.len() >= 20 && all_hex(seg))
}

/// One normalized path segment.
pub open spec fn norm_seg(seg: Seq<char>) -> Seq<char> {
    if seg.len() == 0 {
        seg
    } else if seg_is_id(seg) {
        id_marker()
    } else {
        seg
    }
}

/// Every segment normalized.
pub open spec fn norm_segs(parts: Seq<Seq<char>>) -> Seq<Seq<char>> {
    parts.map_values(|s: Seq<char>| norm_seg(s))
}

/// The normalized form of a URL path.
pub open spec fn spec_normalize_path(path: Seq<char>) -> Seq<char> {
    join_with(norm_segs(split_on(path, '/')), '/')
}

fn is_digit_exec(c: char) -> (r: bool)
    ensures
        r == is_digit(c),
{
    '0' <= c && c <= '9'
}

fn is_hex_digit_exec(c: char) -> (r: bool)
    ensures
        r == is_hex_digit(c),
{
    ('0' <= c && c <= '9') || ('a' <= c && c <= 'f') || ('A' <= c && c <= 'F')
}

fn norm_seg_exec(seg: &Vec<char>) -> (r: Vec<char>)
    ensures
        r@ == norm_seg(seg@),
{
    if seg.len() == 0 {
        let r: Vec<char> = Vec::new();
        assert(r@ =~= seg@);
        return r;
    }
    let mut digits = true;
    let mut hexdash = true;
    let mut hex = true;
    let mut i: usize = 0;
    while i < seg.len()
        invariant
            i <= seg@.len(),
            digits == forall|k: int| 0 <= k < i ==> is_digit(seg@[k]),
            hexdash == forall|k: int| 0 <= k < i ==> is_hex_digit(seg@[k]) || seg@[k] == '-',
            hex == forall|k: int| 0 <= k < i ==> is_hex_digit(seg@[k]),
        decreases seg@.len() - i,
    {
        let c = seg[i];
        digits = digits && is_digit_exec(c);
        hexdash = hexdash && (is_hex_digit_exec(c) || c == '-');
        hex = hex && is_hex_digit_exec(c);
        i = i + 1;
    }
    let is_id = digits || (seg.len() >= 32 && hexdash) || (seg.len() >= 20 && hex);
    if is_id {
        let mut r: Vec<char> = Vec::new();
        r.push('{');
        r.push('i');
        r.push('d');
        r.push('}');
        assert(r@ =~= id_marker());
        r
    } else {
        let mut r: Vec<char> = Vec::new();
        push_all(&mut r, seg);
        assert(r@ =~= seg@);
        r
    }
}

/// Normalize every identifier-shaped segment of `path` to the
/// placeholder, keeping the other segments and the separators.
pub fn normalize_path(path: &str) -> (r: String)
    ensures
        r@ == spec_normalize_path(path@),
{
    let cs = to_chars(path);
    let parts = split_chars(&cs, '/');
    let mut out: Vec<Vec<char>> = Vec::new();
    let mut i: usize = 0;
    proof {
        assert(out.deep_view() =~~= norm_segs(parts.deep_view().take(0)));
    }
    while i < parts.len()
        invariant
            i <= parts@.len(),
            parts.deep_view().len() == parts@.len(),
            out@.len() == i,
            out.deep_view() == norm_segs(parts.deep_view().take(i as int)),
        decreases parts@.len() - i,
    {
        let n = norm_seg_exec(&parts[i]);
        proof {
            assert(parts.deep_view()[i as int] == parts@[i as int]@);
        }
        let ghost nv = n@;
        let ghost ndv = n.deep_view();
        proof {
            assert(ndv =~= nv);
        }
        let ghost prev = out.deep_view();
        out.push(n);
        proof {
            let dv = parts.deep_view();
            assert forall|k: int| 0 <= k < i + 1 implies out.deep_view()[k] == norm_segs(
                dv.take(i as int + 1),
            )[k] by {
                assert(norm_segs(dv.take(i as int + 1))[k] == norm_seg(dv.take(i as int + 1)[k]));
                assert(dv.take(i as int + 1)[k] == dv[k]);
                if k < i {
                    assert(out.deep_view()[k] == prev[k]);
                    assert(prev[k] == norm_segs(dv.take(i as int))[k]);
                    assert(norm_segs(dv.take(i as int))[k] == norm_seg(dv.take(i as int)[k]));
                } else {
                    assert(out@[k] == out@.last());
                    assert(out.deep_view()[k] == out@[k].deep_view());
                    assert(out@[k].deep_view() == ndv);
                }
            }
            assert(out.deep_view() =~= norm_segs(dv.take(i as int + 1)));
        }
        i = i + 1;
    }
    proof {
        assert(parts.deep_view().take(parts@.len() as int) =~= parts.deep_view());
    }
    let joined = join_chars(&out, '/');
    chars_to_string(&joined)
}

proof fn lemma_id_marker_shape()
    ensures
        !id_marker().contains('/'),
        norm_seg(id_marker()) == id_marker(),
{
    assert(id_marker()[0] == '{');
    assert(!is_digit('{'));
    assert(!all_digits(id_marker()));
    assert(id_marker().len() == 4);
    if id_marker().contains('/') {
        let k = choose|k: int| 0 <= k < id_marker().len() && id_marker()[k] == '/';
        assert(id_marker()[0] == '{' && id_marker()[1] == 'i' && id_marker()[2] == 'd'
            && id_marker()[3] == '}');
    }
}

proof fn lemma_norm_seg_idem(s: Seq<char>)
    ensures
        norm_seg(norm_seg(s)) == norm_seg(s),
{
    lemma_id_marker_shape();
}

proof fn lemma_norm_seg_no_sep(s: Seq<char>)
    requires
        !s.contains('/'),
    ensures
        !norm_seg(s).contains('/'),
{
    lemma_id_marker_shape();
}

/// Normalization is idempotent: normalizing an already normalized path
/// changes nothing.
pub proof fn lemma_normalize_idempotent(p: Seq<char>)
    ensures
        spec_normalize_path(spec_normalize_path(p)) == spec_normalize_path(p),
{
    let parts = split_on(p, '/');
    let mapped = norm_segs(parts);
    lemma_split_len(p, '/');
    lemma_split_parts_no_sep(p, '/');
    assert forall|j: int| 0 <= j < mapped.len() implies !mapped[j].contains('/') by {
        lemma_norm_seg_no_sep(parts[j]);
    }
    lemma_split_join(mapped, '/');
    assert(split_on(spec_normalize_path(p), '/') == mapped);
    assert forall|j: int| 0 <= j < mapped.len() implies norm_segs(mapped)[j] == mapped[j] by {
        lemma_norm_seg_idem(parts[j]);
    }
    assert(norm_segs(mapped) =~~= mapped);
}

} // verus!
