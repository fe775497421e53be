//! A small string-keyed map kept as an association list in insertion
//! order, so that every walk over it is deterministic.
use vstd::prelude::*;

verus! {

/// Whether `m` holds an entry with key `k`.
pub open spec fn map_has_key(m: Seq<(Seq<char>, Seq<char>)>, k: Seq<char>) -> bool {
    exists|i: int| 0 <= i < m.len() && m[i].0 == k
}

/// The value bound to `k` in `m`, front to back.
pub open spec fn spec_lookup(m: Seq<(Seq<char>, Seq<char>)>, k: Seq<char>) -> Option<Seq<char>>
    decreases m.len(),
{
    if m.len() == 0 {
        None
    } else if m[0].0 == k {
        Some(m[0].1)
    } else {
        spec_lookup(m.drop_first(), k)
    }
}

/// `m` with `k` bound to `v`: the first entry with key `k` is replaced
/// in place, or the pair is appended when the key is new.
pub open spec fn spec_upsert(
    m: Seq<(Seq<char>, Seq<char>)>,
    k: Seq<char>,
    v: Seq<char>,
) -> Seq<(Seq<char>, Seq<char>)>
    decreases m.len(),
{
    if m.len() == 0 {
        seq![(k, v)]
    } else if m[0].0 == k {
        seq![(k, v)] + m.drop_first()
    } else {
        seq![m[0]] + spec_upsert(m.drop_first(), k, v)
    }
}

/// All keys distinct.
pub open spec fn keys_unique(m: Seq<(Seq<char>, Seq<char>)>) -> bool {
    forall|i: int, j: int| 0 <= i < j < m.len() ==> m[i].0 != m[j].0
}

/// Binding a key keeps keys unique and changes that key's value
/// alone; in the domain registry this is the invariant that a domain
/// maps to at most one app.
pub proof fn lemma_upsert_keeps_unique(m: Seq<(Seq<char>, Seq<char>)>, k: Seq<char>, v: Seq<char>)
    requires
        keys_unique(m),
    ensures
        keys_unique(spec_upsert(m, k, v)),
        map_has_key(spec_upsert(m, k, v), k),
        spec_lookup(spec_upsert(m, k, v), k) == Some(v),
        forall|k2: Seq<char>| k2 != k ==> spec_lookup(spec_upsert(m, k, v), k2) == spec_lookup(
            m,
            k2,
        ),
    decreases m.len(),
{
    let r = spec_upsert(m, k, v);
    if m.len() == 0 {
        assert(r[0].0 == k);
        assert forall|k2: Seq<char>| k2 != k implies spec_lookup(r, k2) == spec_lookup(m, k2) by {
            assert(r.len() == 1);
            assert(r[0].0 == k);
            assert(r.drop_first() =~= Seq::<(Seq<char>, Seq<char>)>::empty());
            assert(spec_lookup(r, k2) == spec_lookup(r.drop_first(), k2));
        }
    } else if m[0].0 == k {
        assert(r[0].0 == k);
        assert forall|i: int, j: int| 0 <= i < j < r.len() implies r[i].0 != r[j].0 by {
            if i == 0 {
                assert(r[j].0 == m[j].0);
            } else {
                assert(r[i].0 == m[i].0 && r[j].0 == m[j].0);
            }
        }
        assert forall|k2: Seq<char>| k2 != k implies spec_lookup(r, k2) == spec_lookup(m, k2) by {
            assert(r.drop_first() =~= m.drop_first());
        }
    } else {
        assert(keys_unique(m.drop_first())) by {
            assert(forall|i: int, j: int|
                0 <= i < j < m.drop_first().len() ==> m.drop_first()[i].0 == m[i + 1].0
                    && m.drop_first()[j].0 == m[j + 1].0);
        }
        lemma_upsert_keeps_unique(m.drop_first(), k, v);
        let rr = spec_upsert(m.drop_first(), k, v);
        assert(r == seq![m[0]] + rr);
        assert(r.drop_first() =~= rr);
        // the head key differs from every key of rr
        assert forall|j: int| 0 <= j < rr.len() implies rr[j].0 != m[0].0 by {
            if rr[j].0 == m[0].0 {
                assert(map_has_key(rr, m[0].0));
                let w = choose|w: int| 0 <= w < rr.len() && rr[w].0 == m[0].0;
                if m[0].0 == k {
                } else {
                    assert(spec_lookup(rr, m[0].0) == spec_lookup(m.drop_first(), m[0].0));
                    lemma_lookup_has_key(rr, m[0].0);
                    lemma_lookup_has_key(m.drop_first(), m[0].0);
                    let w2 = choose|w2: int|
                        0 <= w2 < m.drop_first().len() && m.drop_first()[w2].0 == m[0].0;
                    assert(m[w2 + 1].0 == m[0].0);
                }
            }
        }
        assert forall|i: int, j: int| 0 <= i < j < r.len() implies r[i].0 != r[j].0 by {
            if i == 0 {
                assert(r[j].0 == rr[j - 1].0);
            } else {
                assert(r[i].0 == rr[i - 1].0 && r[j].0 == rr[j - 1].0);
            }
        }
        assert(map_has_key(r, k)) by {
            let w = choose|w: int| 0 <= w < rr.len() && rr[w].0 == k;
            assert(r[w + 1].0 == k);
        }
        assert forall|k2: Seq<char>| k2 != k implies spec_lookup(r, k2) == spec_lookup(m, k2) by {
            assert(r[0] == m[0]);
            if m[0].0 == k2 {
            } else {
                assert(spec_lookup(r, k2) == spec_lookup(rr, k2));
                assert(spec_lookup(m, k2) == spec_lookup(m.drop_first(), k2));
            }
        }
    }
}

/// A key found by `spec_lookup` is present, and the other way round.
pub proof fn lemma_lookup_has_key(m: Seq<(Seq<char>, Seq<char>)>, k: Seq<char>)
    ensures
        spec_lookup(m, k) is Some <==> map_has_key(m, k),
    decreases m.len(),
{
    if m.len() == 0 {
    } else if m[0].0 == k {
    } else {
        lemma_lookup_has_key(m.drop_first(), k);
        if map_has_key(m, k) {
            let w = choose|w: int| 0 <= w < m.len() && m[w].0 == k;
            assert(m.drop_first()[w - 1].0 == k);
        }
        if map_has_key(m.drop_first(), k) {
            let w = choose|w: int| 0 <= w < m.drop_first().len() && m.drop_first()[w].0 == k;
            assert(m[w + 1].0 == k);
        }
    }
}

/// A string-keyed map in insertion order.
pub struct StrMap {
    pub entries: Vec<(String, String)>,
}

impl StrMap {
    /// The entries, each as a pair of character sequences.
    pub open spec fn view(&self) -> Seq<(Seq<char>, Seq<char>)> {
        Seq::new(self.entries@.len(), |i: int| (self.entries@[i].0@, self.entries@[i].1@))
    }

    pub fn new() -> (r: StrMap)
        ensures
            r@ == Seq::<(Seq<char>, Seq<char>)>::empty(),
    {
        let r = StrMap { entries: Vec::new() };
        proof {
            assert(r@ =~= Seq::<(Seq<char>, Seq<char>)>::empty());
        }
        r
    }

    pub fn len(&self) -> (r: usize)
        ensures
            r == self@.len(),
    {
        self.entries.len()
    }

    pub fn key_at(&self, i: usize) -> (r: &String)
        requires
            i < self@.len(),
        ensures
            r@ == self@[i as int].0,
    {
        &self.entries[i].0
    }

    pub fn val_at(&self, i: usize) -> (r: &String)
        requires
            i < self@.len(),
        ensures
            r@ == self@[i as int].1,
    {
        &self.entries[i].1
    }

    /// Look a key up, front to back.
    pub fn get(&self, k: &String) -> (r: Option<&String>)
        ensures
            match r {
                Some(v) => spec_lookup(self@, k@) == Some(v@),
                None => spec_lookup(self@, k@) is None,
            },
    {
        let n = self.entries.len();
        let mut i: usize = 0;
        proof {
            assert(self@.skip(0) =~= self@);
        }
        while i < n
            invariant
                n == self@.len(),
                i <= n,
                spec_lookup(self@, k@) == spec_lookup(self@.skip(i as int), k@),
            decreases n - i,
        {
            proof {
                assert(self@.skip(i as int)[0] == self@[i as int]);
                assert(self@.skip(i as int).drop_first() =~= self@.skip(i as int + 1));
            }
            if self.entries[i].0 == *k {
                return Some(&self.entries[i].1);
            }
            i = i + 1;
        }
        proof {
            assert(self@.skip(n as int).len() == 0);
        }
        None
    }

    /// Bind `k` to `v`: replace the first entry with that key in place,
    /// or append the pair when the key is new.
    pub fn insert(&mut self, k: String, v: String)
        ensures
            final(self)@ == spec_upsert(old(self)@, k@, v@),
    {
        let ghost kv = k@;
        let ghost vv = v@;
        let n = self.entries.len();
        let mut i: usize = 0;
        proof {
            assert(self@.skip(0) =~= self@);
            assert(self@.take(0) + spec_upsert(self@, kv, vv) =~= spec_upsert(self@, kv, vv));
        }
        while i < n
            invariant
                self@ == old(self)@,
                n == self@.len(),
                i <= n,
                k@ == kv,
                v@ == vv,
                forall|j: int| 0 <= j < i ==> self@[j].0 != kv,
                spec_upsert(self@, kv, vv) == self@.take(i as int) + spec_upsert(
                    self@.skip(i as int),
                    kv,
                    vv,
                ),
            decreases n - i,
        {
            let ghost pre = self@.skip(i as int);
            proof {
                assert(pre[0] == self@[i as int]);
                assert(pre.drop_first() =~= self@.skip(i as int + 1));
            }
            if self.entries[i].0 == *(&k) {
                let ghost before = self@;
                let old_pair = self.entries.remove(i);
                self.entries.insert(i, (old_pair.0, v));
                proof {
                    assert(spec_upsert(pre, kv, vv) == seq![(kv, vv)] + pre.drop_first());
                    assert(self@ =~= before.take(i as int) + (seq![(kv, vv)] + before.skip(
                        i as int,
                    ).drop_first()));
                    assert(self@ =~= spec_upsert(before, kv, vv));
                }
                return ;
            }
            proof {
                assert(spec_upsert(pre, kv, vv) == seq![pre[0]] + spec_upsert(
                    pre.drop_first(),
                    kv,
                    vv,
                ));
                assert(self@.take(i as int) + (seq![pre[0]] + spec_upsert(
                    self@.skip(i as int + 1),
                    kv,
                    vv,
                )) =~= self@.take(i as int + 1) + spec_upsert(self@.skip(i as int + 1), kv, vv));
            }
            i = i + 1;
        }
        proof {
            assert(self@.skip(n as int).len() == 0);
            assert(spec_upsert(self@.skip(n as int), kv, vv) == seq![(kv, vv)]);
        }
        let ghost before = self@;
        self.entries.push((k, v));
        proof {
            assert(self@ =~= before + seq![(kv, vv)]);
            assert(before.take(n as int) =~= before);
            assert(self@ =~= spec_upsert(before, kv, vv));
        }
    }
}

} // verus!
