//! Character-sequence helpers shared by every component: ASCII case
//! folding, substring search, splitting and joining, character classes,
//! and decimal rendering.
use vstd::prelude::*;

verus! {

// --- character classes ---

/// A character lowered to its ASCII lowercase form; other characters
/// are left unchanged.
pub open spec fn lower_char(c: char) -> char {
    if 'A' <= c && c <= 'Z' {
        ((c as u8) + 32) as char
    } else {
        c
    }
}

/// A character sequence lowered character by character.
pub open spec fn lower(s: Seq<char>) -> Seq<char> {
    s.map_values(|c: char| lower_char(c))
}

pub open spec fn is_digit(c: char) -> bool {
    '0' <= c && c <= '9'
}

pub open spec fn is_hex_digit(c: char) -> bool {
    is_digit(c) || ('a' <= c && c <= 'f') || ('A' <= c && c <= 'F')
}

/// ASCII whitespace, as trimmed from cookie fragments.
pub open spec fn is_space(c: char) -> bool {
    c == ' ' || c == '\t' || c == '\r' || c == '\n'
}

// --- substring relations ---

/// `p` occurs in `s` starting at index `i`.
pub open spec fn matches_at(s: Seq<char>, p: Seq<char>, i: int) -> bool {
    0 <= i && i + p.len() <= s.len() && s.subrange(i, i + p.len() as int) == p
}

/// `p` occurs somewhere in `s`.
pub open spec fn contains_seq(s: Seq<char>, p: Seq<char>) -> bool {
    exists|i: int| matches_at(s, p, i)
}

pub open spec fn starts_with(s: Seq<char>, p: Seq<char>) -> bool {
    p.len() <= s.len() && s.subrange(0, p.len() as int) == p
}

pub open spec fn ends_with(s: Seq<char>, p: Seq<char>) -> bool {
    p.len() <= s.len() && s.subrange(s.len() - p.len(), s.len() as int) == p
}

// --- basic exec helpers ---

/// Lower one character to ASCII lowercase.
pub fn lower_char_exec(c: char) -> (r: char)
    ensures
        r == lower_char(c),
{
    if 'A' <= c && c <= 'Z' {
        (((c as u8) + 32) as char)
    } else {
        c
    }
}

/// The characters of a string slice, in order.
pub fn to_chars(s: &str) -> (r: Vec<char>)
    ensures
        r@ == s@,
{
    let n = s.unicode_len();
    let mut r: Vec<char> = Vec::new();
    let mut i: usize = 0;
    while i < n
        invariant
            n == s@.len(),
            i <= n,
            r@ == s@.subrange(0, i as int),
        decreases n - i,
    {
        r.push(s.get_char(i));
        assert(r@ =~= s@.subrange(0, i + 1 as int));
        i = i + 1;
    }
    assert(r@ =~= s@);
    r
}

/// Relies on `String::from_iter` over `char`: the returned string holds
/// exactly the given characters, in order.
#[verifier::external_body]
pub fn chars_to_string(v: &Vec<char>) -> (r: String)
    ensures
        r@ == v@,
{
    v.iter().collect()
}

/// Lower every character of `s` to ASCII lowercase.
pub fn lower_chars(s: &Vec<char>) -> (r: Vec<char>)
    ensures
        r@ == lower(s@),
{
    let mut r: Vec<char> = Vec::new();
    let mut i: usize = 0;
    while i < s.len()
        invariant
            i <= s@.len(),
            r@ == lower(s@.subrange(0, i as int)),
        decreases s@.len() - i,
    {
        r.push(lower_char_exec(s[i]));
        assert(r@ =~= lower(s@.subrange(0, i + 1 as int)));
        i = i + 1;
    }
    assert(s@.subrange(0, s@.len() as int) =~= s@);
    r
}

/// Whether `p` occurs in `s` starting at `i`.
fn matches_at_exec(s: &Vec<char>, p: &Vec<char>, i: usize) -> (r: bool)
    requires
        i + p@.len() <= s@.len(),
    ensures
        r == matches_at(s@, p@, i as int),
{
    let n = s.len();
    let mut j: usize = 0;
    while j < p.len()
        invariant
            n == s@.len(),
            i + p@.len() <= s@.len(),
            j <= p@.len(),
            forall|k: int| 0 <= k < j ==> s@[i + k] == p@[k],
        decreases p@.len() - j,
    {
        if s[i + j] != p[j] {
            assert(s@.subrange(i as int, i + p@.len() as int)[j as int] != p@[j as int]);
            return false;
        }
        j = j + 1;
    }
    assert(s@.subrange(i as int, i + p@.len() as int) =~= p@);
    true
}

/// Whether `p` occurs anywhere in `s`.
pub fn contains_chars(s: &Vec<char>, p: &Vec<char>) -> (r: bool)
    ensures
        r == contains_seq(s@, p@),
{
    if p.len() > s.len() {
        assert(forall|i: int| !matches_at(s@, p@, i));
        return false;
    }
    if p.len() == 0 {
        assert(matches_at(s@, p@, 0)) by {
            assert(s@.subrange(0, 0) =~= p@);
        }
        return true;
    }
    let mut i: usize = 0;
    let last = s.len() - p.len();
    while i <= last
        invariant
            1 <= p@.len() <= s@.len(),
            s@.len() <= usize::MAX,
            last == s@.len() - p@.len(),
            i <= last + 1,
            forall|k: int| 0 <= k < i ==> !matches_at(s@, p@, k),
        decreases last - i + 1,
    {
        if matches_at_exec(s, p, i) {
            return true;
        }
        i = i + 1;
    }
    assert(forall|k: int| matches_at(s@, p@, k) ==> 0 <= k <= last);
    false
}

pub fn starts_with_chars(s: &Vec<char>, p: &Vec<char>) -> (r: bool)
    ensures
        r == starts_with(s@, p@),
{
    if p.len() > s.len() {
        return false;
    }
    matches_at_exec(s, p, 0)
}

pub fn ends_with_chars(s: &Vec<char>, p: &Vec<char>) -> (r: bool)
    ensures
        r == ends_with(s@, p@),
{
    if p.len() > s.len() {
        return false;
    }
    let i = s.len() - p.len();
    matches_at_exec(s, p, i)
}

/// Append every character of `src` to `dst`.
pub fn push_all(dst: &mut Vec<char>, src: &Vec<char>)
    ensures
        final(dst)@ == old(dst)@ + src@,
{
    let mut i: usize = 0;
    while i < src.len()
        invariant
            i <= src@.len(),
            dst@ == old(dst)@ + src@.subrange(0, i as int),
        decreases src@.len() - i,
    {
        dst.push(src[i]);
        assert(dst@ =~= old(dst)@ + src@.subrange(0, i + 1 as int));
        i = i + 1;
    }
    assert(old(dst)@ + src@.subrange(0, src@.len() as int) =~= old(dst)@ + src@);
}

/// Append every character of the string slice `src` to `dst`.
pub fn push_str_chars(dst: &mut Vec<char>, src: &str)
    ensures
        final(dst)@ == old(dst)@ + src@,
{
    let v = to_chars(src);
    push_all(dst, &v);
}

// --- splitting and joining ---

/// The parts of `s` between occurrences of `sep`, in order.  There is
/// always at least one part; separators at the ends yield empty parts.
pub open spec fn split_on(s: Seq<char>, sep: char) -> Seq<Seq<char>>
    decreases s.len(),
{
    if s.len() == 0 {
        seq![Seq::<char>::empty()]
    } else if s[0] == sep {
        seq![Seq::<char>::empty()] + split_on(s.drop_first(), sep)
    } else {
        let rest = split_on(s.drop_first(), sep);
        seq![seq![s[0]] + rest[0]] + rest.drop_first()
    }
}

/// The parts joined back together with `sep` between them.
pub open spec fn join_with(parts: Seq<Seq<char>>, sep: char) -> Seq<char>
    decreases parts.len(),
{
    if parts.len() == 0 {
        Seq::empty()
    } else if parts.len() == 1 {
        parts[0]
    } else {
        parts[0] + seq![sep] + join_with(parts.drop_first(), sep)
    }
}

pub proof fn lemma_split_len(s: Seq<char>, sep: char)
    ensures
        split_on(s, sep).len() >= 1,
    decreases s.len(),
{
    if s.len() == 0 {
    } else {
        lemma_split_len(s.drop_first(), sep);
    }
}

/// No part of a split still holds the separator.
pub proof fn lemma_split_parts_no_sep(s: Seq<char>, sep: char)
    ensures
        forall|j: int|
            0 <= j < split_on(s, sep).len() ==> !split_on(s, sep)[j].contains(sep),
    decreases s.len(),
{
    if s.len() == 0 {
        assert forall|j: int| 0 <= j < split_on(s, sep).len() implies !split_on(
            s,
            sep,
        )[j].contains(sep) by {
            assert(split_on(s, sep)[j] =~= Seq::<char>::empty());
        }
    } else if s[0] == sep {
        lemma_split_parts_no_sep(s.drop_first(), sep);
        assert forall|j: int| 0 <= j < split_on(s, sep).len() implies !split_on(
            s,
            sep,
        )[j].contains(sep) by {
            if j == 0 {
                assert(split_on(s, sep)[0] =~= Seq::<char>::empty());
            } else {
                assert(split_on(s, sep)[j] == split_on(s.drop_first(), sep)[j - 1]);
            }
        }
    } else {
        lemma_split_len(s.drop_first(), sep);
        lemma_split_parts_no_sep(s.drop_first(), sep);
        let rest = split_on(s.drop_first(), sep);
        assert forall|j: int| 0 <= j < split_on(s, sep).len() implies !split_on(
            s,
            sep,
        )[j].contains(sep) by {
            if j == 0 {
                assert(split_on(s, sep)[0] == seq![s[0]] + rest[0]);
                assert(!rest[0].contains(sep));
                if split_on(s, sep)[0].contains(sep) {
                    let k = choose|k: int|
                        0 <= k < (seq![s[0]] + rest[0]).len() && (seq![s[0]] + rest[0])[k] == sep;
                    if k == 0 {
                        assert(s[0] == sep);
                    } else {
                        assert(rest[0][k - 1] == sep);
                        assert(rest[0].contains(sep));
                    }
                }
            } else {
                assert(split_on(s, sep)[j] == rest.drop_first()[j - 1]);
                assert(rest.drop_first()[j - 1] == rest[j]);
            }
        }
    }
}

/// Splitting a string with no separator yields that one part.
pub proof fn lemma_split_whole(p: Seq<char>, sep: char)
    requires
        !p.contains(sep),
    ensures
        split_on(p, sep) == seq![p],
    decreases p.len(),
{
    if p.len() == 0 {
        assert(split_on(p, sep) =~~= seq![p]);
    } else {
        assert(p[0] != sep);
        assert(!p.drop_first().contains(sep)) by {
            if p.drop_first().contains(sep) {
                let k = choose|k: int|
                    0 <= k < p.drop_first().len() && p.drop_first()[k] == sep;
                assert(p[k + 1] == sep);
            }
        }
        lemma_split_whole(p.drop_first(), sep);
        let rest = split_on(p.drop_first(), sep);
        assert(rest == seq![p.drop_first()]);
        assert(seq![p[0]] + rest[0] =~= p);
        assert(split_on(p, sep) =~~= seq![p]);
    }
}

/// Splitting `p + sep + s` where `p` has no separator peels off `p`.
pub proof fn lemma_split_concat(p: Seq<char>, s: Seq<char>, sep: char)
    requires
        !p.contains(sep),
    ensures
        split_on(p + seq![sep] + s, sep) == seq![p] + split_on(s, sep),
    decreases p.len(),
{
    let whole = p + seq![sep] + s;
    if p.len() == 0 {
        assert(whole[0] == sep);
        assert(whole.drop_first() =~= s);
        assert(split_on(whole, sep) == seq![Seq::<char>::empty()] + split_on(s, sep));
        assert(seq![Seq::<char>::empty()] + split_on(s, sep) =~~= seq![p] + split_on(s, sep));
    } else {
        assert(whole[0] == p[0]);
        assert(p[0] != sep);
        assert(!p.drop_first().contains(sep)) by {
            if p.drop_first().contains(sep) {
                let k = choose|k: int|
                    0 <= k < p.drop_first().len() && p.drop_first()[k] == sep;
                assert(p[k + 1] == sep);
            }
        }
        lemma_split_concat(p.drop_first(), s, sep);
        assert(whole.drop_first() =~= p.drop_first() + seq![sep] + s);
        let rest = split_on(whole.drop_first(), sep);
        assert(rest == seq![p.drop_first()] + split_on(s, sep));
        lemma_split_len(s, sep);
        assert(rest[0] == p.drop_first());
        assert(seq![whole[0]] + rest[0] =~= p);
        assert(rest.drop_first() =~= split_on(s, sep));
        assert(split_on(whole, sep) =~= seq![p] + split_on(s, sep));
    }
}

/// Splitting a join of separator-free parts gives the parts back.
pub proof fn lemma_split_join(parts: Seq<Seq<char>>, sep: char)
    requires
        parts.len() >= 1,
        forall|j: int| 0 <= j < parts.len() ==> !parts[j].contains(sep),
    ensures
        split_on(join_with(parts, sep), sep) == parts,
    decreases parts.len(),
{
    if parts.len() == 1 {
        lemma_split_whole(parts[0], sep);
        assert(split_on(join_with(parts, sep), sep) =~= parts);
    } else {
        lemma_split_join(parts.drop_first(), sep);
        lemma_split_concat(parts[0], join_with(parts.drop_first(), sep), sep);
        assert(seq![parts[0]] + split_on(join_with(parts.drop_first(), sep), sep) =~= parts);
    }
}

/// Joining one more part extends the join with a separator.
pub proof fn lemma_join_snoc(parts: Seq<Seq<char>>, x: Seq<char>, sep: char)
    requires
        parts.len() >= 1,
    ensures
        join_with(parts.push(x), sep) == join_with(parts, sep) + seq![sep] + x,
    decreases parts.len(),
{
    if parts.len() == 1 {
        assert(parts.push(x).drop_first() =~~= seq![x]);
        assert(join_with(seq![x], sep) == x);
        assert(parts.push(x)[0] == parts[0]);
        assert(join_with(parts.push(x), sep) == parts[0] + seq![sep] + x);
    } else {
        lemma_join_snoc(parts.drop_first(), x, sep);
        assert(parts.push(x).drop_first() =~= parts.drop_first().push(x));
        assert(join_with(parts.push(x), sep) == parts[0] + seq![sep] + join_with(
            parts.drop_first().push(x),
            sep,
        ));
        assert(parts[0] + seq![sep] + (join_with(parts.drop_first(), sep) + seq![sep] + x) =~= (
        parts[0] + seq![sep] + join_with(parts.drop_first(), sep)) + seq![sep] + x);
    }
}

/// Split a character vector on a separator.
pub fn split_chars(s: &Vec<char>, sep: char) -> (r: Vec<Vec<char>>)
    ensures
        r.deep_view() == split_on(s@, sep),
{
    let mut acc: Vec<Vec<char>> = Vec::new();
    let mut cur: Vec<char> = Vec::new();
    let mut i: usize = 0;
    proof {
        lemma_split_len(s@, sep);
        assert(s@.skip(0) =~= s@);
        assert(acc.deep_view() + seq![cur@ + split_on(s@.skip(0), sep)[0]] + split_on(
            s@.skip(0),
            sep,
        ).drop_first() =~= split_on(s@, sep));
    }
    while i < s.len()
        invariant
            i <= s@.len(),
            split_on(s@, sep) == acc.deep_view() + seq![
                cur@ + split_on(s@.skip(i as int), sep)[0],
            ] + split_on(s@.skip(i as int), sep).drop_first(),
        decreases s@.len() - i,
    {
        let ghost pre = s@.skip(i as int);
        let ghost post = s@.skip(i as int + 1);
        proof {
            assert(pre.len() > 0);
            assert(pre[0] == s@[i as int]);
            assert(pre.drop_first() =~= post);
            lemma_split_len(post, sep);
        }
        let c = s[i];
        if c == sep {
            proof {
                assert(split_on(pre, sep) == seq![Seq::<char>::empty()] + split_on(post, sep));
                assert(split_on(pre, sep)[0] =~= Seq::<char>::empty());
                assert(cur@ + split_on(pre, sep)[0] =~= cur@);
                assert(split_on(pre, sep).drop_first() =~= split_on(post, sep));
            }
            acc.push(cur);
            cur = Vec::new();
            proof {
                let sp = split_on(post, sep);
                assert(split_on(post, sep) =~~= seq![sp[0]] + sp.drop_first());
                assert(split_on(s@, sep) =~~= acc.deep_view() + seq![cur@ + sp[0]]
                    + sp.drop_first());
            }
        } else {
            proof {
                let rest = split_on(post, sep);
                assert(split_on(pre, sep) == seq![seq![pre[0]] + rest[0]] + rest.drop_first());
                assert(split_on(pre, sep)[0] == seq![pre[0]] + rest[0]);
                assert(split_on(pre, sep).drop_first() =~= rest.drop_first());
                assert(cur@ + (seq![pre[0]] + rest[0]) =~= (cur@ + seq![pre[0]]) + rest[0]);
                assert(cur@.push(s@[i as int]) =~= cur@ + seq![pre[0]]);
            }
            cur.push(c);
        }
        i = i + 1;
    }
    proof {
        assert(s@.skip(s@.len() as int) =~= Seq::<char>::empty());
        assert(split_on(s@.skip(i as int), sep) == seq![Seq::<char>::empty()]);
        assert(cur@ + Seq::<char>::empty() =~= cur@);
        assert(split_on(s@.skip(i as int), sep).drop_first() =~= Seq::<Seq<char>>::empty());
    }
    acc.push(cur);
    proof {
        assert(acc.deep_view() =~~= split_on(s@, sep));
    }
    acc
}

/// Join parts with a separator.
pub fn join_chars(parts: &Vec<Vec<char>>, sep: char) -> (r: Vec<char>)
    ensures
        r@ == join_with(parts.deep_view(), sep),
{
    let mut r: Vec<char> = Vec::new();
    if parts.len() == 0 {
        return r;
    }
    push_all(&mut r, &parts[0]);
    let mut i: usize = 1;
    proof {
        assert(parts.deep_view().take(1) =~= seq![parts.deep_view()[0]]);
    }
    while i < parts.len()
        invariant
            1 <= i <= parts@.len(),
            parts.deep_view().len() == parts@.len(),
            r@ == join_with(parts.deep_view().take(i as int), sep),
        decreases parts@.len() - i,
    {
        r.push(sep);
        push_all(&mut r, &parts[i]);
        proof {
            let dv = parts.deep_view();
            lemma_join_snoc(dv.take(i as int), dv[i as int], sep);
            assert(dv.take(i as int).push(dv[i as int]) =~= dv.take(i as int + 1));
            assert(r@ =~= join_with(dv.take(i as int), sep) + seq![sep] + dv[i as int]);
        }
        i = i + 1;
    }
    proof {
        assert(parts.deep_view().take(parts@.len() as int) =~= parts.deep_view());
    }
    r
}

// --- decimal rendering ---

/// The digit character for `n`, which must lie below ten.
pub open spec fn dec_digit(n: nat) -> char {
    ((48 + n) as u8) as char
}

/// The decimal representation of `n`, most significant digit first.
pub open spec fn dec_str(n: nat) -> Seq<char>
    decreases n,
{
    if n < 10 {
        seq![dec_digit(n)]
    } else {
        dec_str(n / 10) + seq![dec_digit(n % 10)]
    }
}

/// Render `n` in decimal.
pub fn dec_chars(n: u64) -> (r: Vec<char>)
    ensures
        r@ == dec_str(n as nat),
    decreases n,
{
    if n < 10 {
        let d: u8 = 48 + (n as u8);
        let mut r: Vec<char> = Vec::new();
        r.push(d as char);
        assert(r@ =~= seq![dec_digit(n as nat)]);
        r
    } else {
        let mut r = dec_chars(n / 10);
        let d: u8 = 48 + ((n % 10) as u8);
        r.push(d as char);
        assert(r@ =~= dec_str((n / 10) as nat) + seq![dec_digit((n % 10) as nat)]);
        r
    }
}

// --- trimming ---

/// `s` without leading ASCII whitespace.
pub open spec fn trim_start(s: Seq<char>) -> Seq<char>
    decreases s.len(),
{
    if s.len() > 0 && is_space(s[0]) {
        trim_start(s.drop_first())
    } else {
        s
    }
}

/// `s` without trailing ASCII whitespace.
pub open spec fn trim_end(s: Seq<char>) -> Seq<char>
    decreases s.len(),
{
    if s.len() > 0 && is_space(s.last()) {
        trim_end(s.drop_last())
    } else {
        s
    }
}

/// `s` without leading or trailing ASCII whitespace.
pub open spec fn trim(s: Seq<char>) -> Seq<char> {
    trim_end(trim_start(s))
}

proof fn lemma_trim_start_skip(s: Seq<char>, k: int)
    requires
        0 <= k <= s.len(),
        forall|i: int| 0 <= i < k ==> is_space(s[i]),
        k < s.len() ==> !is_space(s[k]),
    ensures
        trim_start(s) == s.skip(k),
    decreases k,
{
    if k == 0 {
        assert(s.skip(0) =~= s);
    } else {
        assert(is_space(s[0]));
        lemma_trim_start_skip(s.drop_first(), k - 1);
        assert(s.drop_first().skip(k - 1) =~= s.skip(k));
    }
}

proof fn lemma_trim_end_take(s: Seq<char>, k: int)
    requires
        0 <= k <= s.len(),
        forall|i: int| k <= i < s.len() ==> is_space(s[i]),
        k > 0 ==> !is_space(s[k - 1]),
    ensures
        trim_end(s) == s.take(k),
    decreases s.len() - k,
{
    if k == s.len() {
        assert(s.take(k) =~= s);
        if s.len() > 0 && is_space(s.last()) {
            lemma_trim_end_take(s.drop_last(), k - 1);
            assert(s.drop_last().take(k - 1) =~= s.take(k - 1));
            assert(forall|i: int| k - 1 <= i < s.drop_last().len() ==> is_space(s.drop_last()[i]));
        }
    } else {
        assert(is_space(s.last()));
        lemma_trim_end_take(s.drop_last(), k);
        assert(s.drop_last().take(k) =~= s.take(k));
    }
}

pub proof fn lemma_trim_start_len(s: Seq<char>)
    ensures
        trim_start(s).len() <= s.len(),
    decreases s.len(),
{
    if s.len() > 0 && is_space(s[0]) {
        lemma_trim_start_len(s.drop_first());
    }
}

pub proof fn lemma_trim_end_len(s: Seq<char>)
    ensures
        trim_end(s).len() <= s.len(),
    decreases s.len(),
{
    if s.len() > 0 && is_space(s.last()) {
        lemma_trim_end_len(s.drop_last());
    }
}

/// Trimming never lengthens a string.
pub proof fn lemma_trim_len(s: Seq<char>)
    ensures
        trim(s).len() <= s.len(),
{
    lemma_trim_start_len(s);
    lemma_trim_end_len(trim_start(s));
}

fn is_space_exec(c: char) -> (r: bool)
    ensures
        r == is_space(c),
{
    c == ' ' || c == '\t' || c == '\r' || c == '\n'
}

/// Trim leading and trailing ASCII whitespace.
pub fn trim_chars(s: &Vec<char>) -> (r: Vec<char>)
    ensures
        r@ == trim(s@),
{
    let n = s.len();
    let mut a: usize = 0;
    while a < n && is_space_exec(s[a])
        invariant
            n == s@.len(),
            a <= n,
            forall|i: int| 0 <= i < a ==> is_space(s@[i]),
        decreases n - a,
    {
        a = a + 1;
    }
    proof {
        lemma_trim_start_skip(s@, a as int);
    }
    let mut b: usize = n;
    while b > a && is_space_exec(s[b - 1])
        invariant
            n == s@.len(),
            a <= b <= n,
            forall|i: int| b <= i < n ==> is_space(s@[i]),
        decreases b,
    {
        b = b - 1;
    }
    proof {
        let t = s@.skip(a as int);
        assert(forall|i: int| b - a <= i < t.len() ==> is_space(t[i]));
        if b > a {
            assert(!is_space(t[b - a - 1]));
        }
        lemma_trim_end_take(t, b - a);
    }
    let mut r: Vec<char> = Vec::new();
    let mut i: usize = a;
    while i < b
        invariant
            a <= i <= b <= n,
            n == s@.len(),
            r@ == s@.subrange(a as int, i as int),
        decreases b - i,
    {
        r.push(s[i]);
        assert(r@ =~= s@.subrange(a as int, i + 1 as int));
        i = i + 1;
    }
    proof {
        assert(s@.skip(a as int).take(b - a as int) =~= s@.subrange(a as int, b as int));
    }
    r
}

// --- lexicographic order on character sequences ---

/// `a` is lexicographically at or before `b`, comparing code points.
pub open spec fn lex_le(a: Seq<char>, b: Seq<char>) -> bool
    decreases a.len(),
{
    if a.len() == 0 {
        true
    } else if b.len() == 0 {
        false
    } else if a[0] != b[0] {
        a[0] < b[0]
    } else {
        lex_le(a.drop_first(), b.drop_first())
    }
}

pub proof fn lemma_lex_total(a: Seq<char>, b: Seq<char>)
    ensures
        lex_le(a, b) || lex_le(b, a),
    decreases a.len(),
{
    if a.len() == 0 || b.len() == 0 {
    } else if a[0] != b[0] {
    } else {
        lemma_lex_total(a.drop_first(), b.drop_first());
    }
}

pub proof fn lemma_lex_trans(a: Seq<char>, b: Seq<char>, c: Seq<char>)
    requires
        lex_le(a, b),
        lex_le(b, c),
    ensures
        lex_le(a, c),
    decreases a.len(),
{
    if a.len() == 0 || b.len() == 0 || c.len() == 0 {
    } else if a[0] == b[0] && b[0] == c[0] {
        lemma_lex_trans(a.drop_first(), b.drop_first(), c.drop_first());
    }
}

/// Compare two character vectors lexicographically.
pub fn lex_le_chars(a: &Vec<char>, b: &Vec<char>) -> (r: bool)
    ensures
        r == lex_le(a@, b@),
{
    let mut i: usize = 0;
    proof {
        assert(a@.skip(0) =~= a@);
        assert(b@.skip(0) =~= b@);
    }
    while i < a.len() && i < b.len()
        invariant
            i <= a@.len(),
            i <= b@.len(),
            forall|k: int| 0 <= k < i ==> a@[k] == b@[k],
            lex_le(a@, b@) == lex_le(a@.skip(i as int), b@.skip(i as int)),
        decreases a@.len() - i,
    {
        let ghost pa = a@.skip(i as int);
        let ghost pb = b@.skip(i as int);
        if a[i] != b[i] {
            assert(pa[0] == a@[i as int] && pb[0] == b@[i as int]);
            return a[i] < b[i];
        }
        proof {
            assert(pa[0] == pb[0]);
            assert(pa.drop_first() =~= a@.skip(i + 1 as int));
            assert(pb.drop_first() =~= b@.skip(i + 1 as int));
        }
        i = i + 1;
    }
    proof {
        if i >= a@.len() {
            assert(a@.skip(i as int).len() == 0);
        } else {
            assert(b@.skip(i as int).len() == 0);
            assert(a@.skip(i as int).len() > 0);
        }
    }
    a.len() <= b.len()
}

/// Join the parts from index `start` on with a separator.
pub fn join_from(parts: &Vec<Vec<char>>, start: usize, sep: char) -> (r: Vec<char>)
    requires
        start <= parts@.len(),
    ensures
        r@ == join_with(parts.deep_view().skip(start as int), sep),
{
    let ghost dv = parts.deep_view();
    let mut suffix: Vec<Vec<char>> = Vec::new();
    let mut i: usize = start;
    proof {
        assert(suffix.deep_view() =~~= dv.subrange(start as int, start as int));
    }
    while i < parts.len()
        invariant
            start <= i <= parts@.len(),
            dv.len() == parts@.len(),
            suffix@.len() == i - start,
            suffix.deep_view() == dv.subrange(start as int, i as int),
        decreases parts@.len() - i,
    {
        let mut part: Vec<char> = Vec::new();
        push_all(&mut part, &parts[i]);
        let ghost pv = part@;
        let ghost before = suffix.deep_view();
        suffix.push(part);
        proof {
            assert(pv == dv[i as int]);
            assert forall|k: int| 0 <= k < i + 1 - start implies suffix.deep_view()[k]
                == dv.subrange(start as int, i as int + 1)[k] by {
                if k < i - start {
                    assert(suffix.deep_view()[k] == before[k]);
                } else {
                    assert(suffix@[k] == suffix@.last());
                    assert(suffix.deep_view()[k] =~= pv);
                }
            }
            assert(suffix.deep_view() =~= dv.subrange(start as int, i as int + 1));
        }
        i = i + 1;
    }
    proof {
        assert(dv.subrange(start as int, dv.len() as int) =~= dv.skip(start as int));
    }
    join_chars(&suffix, sep)
}

/// Whether two character vectors hold the same characters.
pub fn chars_eq(a: &Vec<char>, b: &Vec<char>) -> (r: bool)
    ensures
        r == (a@ == b@),
{
    if a.len() != b.len() {
        return false;
    }
    let mut i: usize = 0;
    while i < a.len()
        invariant
            a@.len() == b@.len(),
            i <= a@.len(),
            forall|k: int| 0 <= k < i ==> a@[k] == b@[k],
        decreases a@.len() - i,
    {
        if a[i] != b[i] {
            return false;
        }
        i = i + 1;
    }
    assert(a@ =~= b@);
    true
}

} // verus!
