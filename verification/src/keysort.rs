//! Stable ordering of keyed entries by key bytes (lexicographic byte order).
use vstd::prelude::*;

verus! {

/// Strict lexicographic order on byte strings (a proper prefix is smaller).
pub open spec fn bytes_lt(a: Seq<u8>, b: Seq<u8>) -> bool
    decreases a.len(),
{
    if a.len() == 0 {
        b.len() > 0
    } else if b.len() == 0 {
        false
    } else if a[0] < b[0] {
        true
    } else if a[0] > b[0] {
        false
    } else {
        bytes_lt(a.drop_first(), b.drop_first())
    }
}

/// Insert `e` before the first entry whose key is strictly greater (so after
/// every entry with an equal key).
pub open spec fn ins_by_key<T>(s: Seq<(Seq<u8>, T)>, e: (Seq<u8>, T)) -> Seq<(Seq<u8>, T)>
    decreases s.len(),
{
    if s.len() == 0 {
        seq![e]
    } else if bytes_lt(e.0, s[0].0) {
        seq![e] + s
    } else {
        seq![s[0]] + ins_by_key(s.drop_first(), e)
    }
}

/// Stable sort by key bytes (insertion order among equal keys is kept).
pub open spec fn sort_by_key<T>(s: Seq<(Seq<u8>, T)>) -> Seq<(Seq<u8>, T)>
    decreases s.len(),
{
    if s.len() == 0 {
        s
    } else {
        ins_by_key(sort_by_key(s.drop_last()), s.last())
    }
}

/// Insertion position: before the first strictly greater key.
pub proof fn lemma_ins_at<T>(s: Seq<(Seq<u8>, T)>, e: (Seq<u8>, T), p: int)
    requires
        0 <= p <= s.len(),
        forall|t: int| 0 <= t < p ==> !bytes_lt(e.0, #[trigger] s[t].0),
        p < s.len() ==> bytes_lt(e.0, s[p].0),
    ensures
        ins_by_key(s, e) == s.take(p) + seq![e] + s.skip(p),
    decreases s.len(),
{
    if s.len() == 0 {
        assert(s.take(p) + seq![e] + s.skip(p) =~= seq![e]);
    } else if p == 0 {
        assert(s.take(p) + seq![e] + s.skip(p) =~= seq![e] + s);
    } else {
        let d = s.drop_first();
        assert forall|t: int| 0 <= t < p - 1 implies !bytes_lt(e.0, #[trigger] d[t].0) by {
            assert(d[t] == s[t + 1]);
        }
        lemma_ins_at(d, e, p - 1);
        assert(s.take(p) + seq![e] + s.skip(p) =~= seq![s[0]] + (d.take(p - 1) + seq![e] + d.skip(
            p - 1,
        )));
    }
}

/// Sorting only looks at keys: relabelling every payload commutes with sorting.
pub proof fn lemma_sort_relabel<U>(s: Seq<(Seq<u8>, int)>, f: spec_fn(int) -> U)
    ensures
        sort_by_key(s.map_values(|p: (Seq<u8>, int)| (p.0, f(p.1)))) == sort_by_key(s).map_values(
            |p: (Seq<u8>, int)| (p.0, f(p.1)),
        ),
    decreases s.len(),
{
    let g = |p: (Seq<u8>, int)| (p.0, f(p.1));
    if s.len() > 0 {
        lemma_sort_relabel(s.drop_last(), f);
        assert(s.map_values(g).drop_last() =~= s.drop_last().map_values(g));
        lemma_ins_relabel(sort_by_key(s.drop_last()), s.last(), f);
    } else {
        assert(s.map_values(g) =~= Seq::<(Seq<u8>, U)>::empty());
    }
}

proof fn lemma_ins_relabel<U>(s: Seq<(Seq<u8>, int)>, e: (Seq<u8>, int), f: spec_fn(int) -> U)
    ensures
        ins_by_key(s.map_values(|p: (Seq<u8>, int)| (p.0, f(p.1))), (e.0, f(e.1))) == ins_by_key(
            s,
            e,
        ).map_values(|p: (Seq<u8>, int)| (p.0, f(p.1))),
    decreases s.len(),
{
    let g = |p: (Seq<u8>, int)| (p.0, f(p.1));
    if s.len() == 0 {
        assert(ins_by_key(s, e).map_values(g) =~= seq![(e.0, f(e.1))]);
    } else if bytes_lt(e.0, s[0].0) {
        assert(ins_by_key(s, e).map_values(g) =~= seq![(e.0, f(e.1))] + s.map_values(g));
    } else {
        lemma_ins_relabel(s.drop_first(), e, f);
        assert(s.map_values(g).drop_first() =~= s.drop_first().map_values(g));
        assert(ins_by_key(s, e).map_values(g) =~= seq![g(s[0])] + ins_by_key(s.drop_first(), e).map_values(g));
    }
}

/// Exact byte-wise lexicographic comparison of two byte slices.
pub fn slice_lt(a: &[u8], b: &[u8]) -> (r: bool)
    ensures
        r == bytes_lt(a@, b@),
{
    let mut i: usize = 0;
    assert(a@.skip(0) =~= a@);
    assert(b@.skip(0) =~= b@);
    while i < a.len() && i < b.len()
        invariant
            i <= a@.len(),
            i <= b@.len(),
            bytes_lt(a@, b@) == bytes_lt(a@.skip(i as int), b@.skip(i as int)),
        decreases a@.len() - i,
    {
        if a[i] != b[i] {
            proof {
                assert(a@.skip(i as int)[0] == a@[i as int]);
                assert(b@.skip(i as int)[0] == b@[i as int]);
            }
            return a[i] < b[i];
        }
        proof {
            assert(a@.skip(i as int).drop_first() =~= a@.skip(i + 1));
            assert(b@.skip(i as int).drop_first() =~= b@.skip(i + 1));
        }
        i = i + 1;
    }
    proof {
        assert(a@.skip(i as int).len() == a@.len() - i);
    }
    i == a.len() && i < b.len()
}

// ---------------------------------------------------------------- order facts

pub proof fn lemma_bytes_lt_irreflexive(a: Seq<u8>)
    ensures
        !bytes_lt(a, a),
    decreases a.len(),
{
    if a.len() > 0 {
        lemma_bytes_lt_irreflexive(a.drop_first());
    }
}

pub proof fn lemma_bytes_lt_transitive(a: Seq<u8>, b: Seq<u8>, c: Seq<u8>)
    requires
        bytes_lt(a, b),
        bytes_lt(b, c),
    ensures
        bytes_lt(a, c),
    decreases a.len(),
{
    if a.len() > 0 && b.len() > 0 && c.len() > 0 && a[0] == b[0] && b[0] == c[0] {
        lemma_bytes_lt_transitive(a.drop_first(), b.drop_first(), c.drop_first());
    }
}

pub proof fn lemma_bytes_lt_total(a: Seq<u8>, b: Seq<u8>)
    ensures
        a == b || bytes_lt(a, b) || bytes_lt(b, a),
    decreases a.len(),
{
    if a.len() == 0 && b.len() == 0 {
        assert(a =~= b);
    } else if a.len() > 0 && b.len() > 0 && a[0] == b[0] {
        lemma_bytes_lt_total(a.drop_first(), b.drop_first());
        if a.drop_first() == b.drop_first() {
            assert(a =~= seq![a[0]] + a.drop_first());
            assert(b =~= seq![b[0]] + b.drop_first());
        }
    }
}

/// Keys strictly increase along the sequence.
pub open spec fn strictly_sorted<T>(s: Seq<(Seq<u8>, T)>) -> bool {
    forall|i: int, j: int| 0 <= i < j < s.len() ==> bytes_lt(#[trigger] s[i].0, #[trigger] s[j].0)
}

/// No two entries share a key.
pub open spec fn keys_distinct<T>(s: Seq<(Seq<u8>, T)>) -> bool {
    forall|i: int, j: int| 0 <= i < j < s.len() ==> #[trigger] s[i].0 != #[trigger] s[j].0
}

pub proof fn lemma_contains_cons<A>(x: A, t: Seq<A>)
    ensures
        forall|z: A| #[trigger] (seq![x] + t).contains(z) <==> (z == x || t.contains(z)),
{
    let c = seq![x] + t;
    assert forall|z: A| #[trigger] c.contains(z) <==> (z == x || t.contains(z)) by {
        if c.contains(z) {
            let k = choose|k: int| 0 <= k < c.len() && c[k] == z;
            if k > 0 {
                assert(t[k - 1] == z);
            }
        }
        if z == x {
            assert(c[0] == z);
        }
        if t.contains(z) {
            let k = choose|k: int| 0 <= k < t.len() && t[k] == z;
            assert(c[k + 1] == z);
        }
    }
}

pub proof fn lemma_ins_contains<T>(s: Seq<(Seq<u8>, T)>, e: (Seq<u8>, T))
    ensures
        forall|z: (Seq<u8>, T)| #[trigger] ins_by_key(s, e).contains(z) <==> (s.contains(z) || z == e),
        ins_by_key(s, e).len() == s.len() + 1,
    decreases s.len(),
{
    if s.len() == 0 {
        lemma_contains_cons(e, s);
        assert(ins_by_key(s, e) =~= seq![e] + s);
    } else if bytes_lt(e.0, s[0].0) {
        lemma_contains_cons(e, s);
    } else {
        let d = s.drop_first();
        lemma_ins_contains(d, e);
        lemma_contains_cons(s[0], ins_by_key(d, e));
        lemma_contains_cons(s[0], d);
        assert(s =~= seq![s[0]] + d);
    }
}

pub proof fn lemma_sort_contains<T>(s: Seq<(Seq<u8>, T)>)
    ensures
        forall|z: (Seq<u8>, T)| #[trigger] sort_by_key(s).contains(z) <==> s.contains(z),
        sort_by_key(s).len() == s.len(),
    decreases s.len(),
{
    if s.len() > 0 {
        let init = s.drop_last();
        lemma_sort_contains(init);
        lemma_ins_contains(sort_by_key(init), s.last());
        assert forall|z: (Seq<u8>, T)| #[trigger] sort_by_key(s).contains(z) <==> s.contains(z) by {
            if s.contains(z) {
                let k = choose|k: int| 0 <= k < s.len() && s[k] == z;
                if k < s.len() - 1 {
                    assert(init[k] == z);
                    assert(init.contains(z));
                    assert(sort_by_key(init).contains(z));
                }
            }
            if init.contains(z) {
                let k = choose|k: int| 0 <= k < init.len() && init[k] == z;
                assert(s[k] == z);
            }
        }
    }
}

/// Inserting a key that differs from every key of a strictly sorted
/// sequence keeps it strictly sorted.
pub proof fn lemma_ins_sorted<T>(s: Seq<(Seq<u8>, T)>, e: (Seq<u8>, T))
    requires
        strictly_sorted(s),
        forall|k: int| 0 <= k < s.len() ==> #[trigger] s[k].0 != e.0,
    ensures
        strictly_sorted(ins_by_key(s, e)),
    decreases s.len(),
{
    let r = ins_by_key(s, e);
    if s.len() == 0 {
    } else if bytes_lt(e.0, s[0].0) {
        assert forall|i: int, j: int| 0 <= i < j < r.len() implies bytes_lt(
            #[trigger] r[i].0,
            #[trigger] r[j].0,
        ) by {
            if i == 0 {
                if j > 1 {
                    lemma_bytes_lt_transitive(e.0, s[0].0, s[j - 1].0);
                }
            } else {
                assert(r[i] == s[i - 1] && r[j] == s[j - 1]);
            }
        }
    } else {
        let d = s.drop_first();
        lemma_bytes_lt_total(e.0, s[0].0);
        lemma_ins_sorted(d, e);
        lemma_ins_contains(d, e);
        let t = ins_by_key(d, e);
        assert(r == seq![s[0]] + t);
        assert forall|i: int, j: int| 0 <= i < j < r.len() implies bytes_lt(
            #[trigger] r[i].0,
            #[trigger] r[j].0,
        ) by {
            if i == 0 {
                assert(r[j] == t[j - 1]);
                assert(t.contains(t[j - 1]));
                if d.contains(t[j - 1]) {
                    let m = choose|m: int| 0 <= m < d.len() && d[m] == t[j - 1];
                    assert(s[m + 1] == d[m]);
                }
            } else {
                assert(r[i] == t[i - 1] && r[j] == t[j - 1]);
            }
        }
    }
}

/// With distinct keys, sorting yields strictly increasing keys.
pub proof fn lemma_sort_strict<T>(s: Seq<(Seq<u8>, T)>)
    requires
        keys_distinct(s),
    ensures
        strictly_sorted(sort_by_key(s)),
    decreases s.len(),
{
    if s.len() > 0 {
        let init = s.drop_last();
        assert(keys_distinct(init)) by {
            assert forall|i: int, j: int| 0 <= i < j < init.len() implies #[trigger] init[i].0
                != #[trigger] init[j].0 by {
                assert(init[i] == s[i] && init[j] == s[j]);
            }
        }
        lemma_sort_strict(init);
        lemma_sort_contains(init);
        let si = sort_by_key(init);
        assert forall|k: int| 0 <= k < si.len() implies #[trigger] si[k].0 != s.last().0 by {
            assert(si.contains(si[k]));
            assert(init.contains(si[k]));
            let m = choose|m: int| 0 <= m < init.len() && init[m] == si[k];
            assert(s[m] == init[m]);
        }
        lemma_ins_sorted(si, s.last());
    }
}

/// Strictly sorted sequences holding the same entries are equal.
pub proof fn lemma_strictly_sorted_unique<T>(x: Seq<(Seq<u8>, T)>, y: Seq<(Seq<u8>, T)>)
    requires
        strictly_sorted(x),
        strictly_sorted(y),
        forall|z: (Seq<u8>, T)| #[trigger] x.contains(z) <==> y.contains(z),
    ensures
        x == y,
    decreases x.len(),
{
    if x.len() == 0 {
        if y.len() > 0 {
            assert(y.contains(y[0]));
            assert(x.contains(y[0]));
        }
        assert(x =~= y);
    } else if y.len() == 0 {
        assert(x.contains(x[0]));
        assert(y.contains(x[0]));
    } else {
        assert(x.contains(x[0]));
        assert(y.contains(y[0]));
        assert(x.contains(y[0]));
        assert(y.contains(x[0]));
        let i = choose|i: int| 0 <= i < x.len() && x[i] == y[0];
        let k = choose|k: int| 0 <= k < y.len() && y[k] == x[0];
        if i > 0 {
            assert(bytes_lt(x[0].0, x[i].0));
            if k > 0 {
                assert(bytes_lt(y[0].0, y[k].0));
                lemma_bytes_lt_transitive(x[0].0, y[0].0, x[0].0);
                lemma_bytes_lt_irreflexive(x[0].0);
            } else {
                lemma_bytes_lt_irreflexive(x[0].0);
            }
        }
        assert(x[0] == y[0]);
        let xd = x.drop_first();
        let yd = y.drop_first();
        lemma_contains_cons(x[0], xd);
        lemma_contains_cons(y[0], yd);
        assert(x =~= seq![x[0]] + xd);
        assert(y =~= seq![y[0]] + yd);
        assert forall|z: (Seq<u8>, T)| #[trigger] xd.contains(z) <==> yd.contains(z) by {
            if xd.contains(z) {
                let j = choose|j: int| 0 <= j < xd.len() && xd[j] == z;
                assert(x[j + 1] == z);
                assert(bytes_lt(x[0].0, x[j + 1].0));
                if z == y[0] {
                    lemma_bytes_lt_irreflexive(x[0].0);
                }
                assert(x.contains(z));
                assert(y.contains(z));
            }
            if yd.contains(z) {
                let j = choose|j: int| 0 <= j < yd.len() && yd[j] == z;
                assert(y[j + 1] == z);
                assert(bytes_lt(y[0].0, y[j + 1].0));
                if z == x[0] {
                    lemma_bytes_lt_irreflexive(y[0].0);
                }
                assert(y.contains(z));
                assert(x.contains(z));
            }
        }
        assert(strictly_sorted(xd)) by {
            assert forall|a: int, b: int| 0 <= a < b < xd.len() implies bytes_lt(
                #[trigger] xd[a].0,
                #[trigger] xd[b].0,
            ) by {
                assert(xd[a] == x[a + 1] && xd[b] == x[b + 1]);
            }
        }
        assert(strictly_sorted(yd)) by {
            assert forall|a: int, b: int| 0 <= a < b < yd.len() implies bytes_lt(
                #[trigger] yd[a].0,
                #[trigger] yd[b].0,
            ) by {
                assert(yd[a] == y[a + 1] && yd[b] == y[b + 1]);
            }
        }
        lemma_strictly_sorted_unique(xd, yd);
    }
}

/// Entry order does not matter: two sequences holding the same entries,
/// each with distinct keys, sort to the same sequence.
pub proof fn sort_ignores_entry_order<T>(s1: Seq<(Seq<u8>, T)>, s2: Seq<(Seq<u8>, T)>)
    requires
        keys_distinct(s1),
        keys_distinct(s2),
        forall|z: (Seq<u8>, T)| #[trigger] s1.contains(z) <==> s2.contains(z),
    ensures
        sort_by_key(s1) == sort_by_key(s2),
{
    lemma_sort_strict(s1);
    lemma_sort_strict(s2);
    lemma_sort_contains(s1);
    lemma_sort_contains(s2);
    lemma_strictly_sorted_unique(sort_by_key(s1), sort_by_key(s2));
}

/// Keys never decrease along the sequence.
pub open spec fn key_ordered<T>(s: Seq<(Seq<u8>, T)>) -> bool {
    forall|i: int, j: int| 0 <= i < j < s.len() ==> !bytes_lt(#[trigger] s[j].0, #[trigger] s[i].0)
}

proof fn lemma_ins_ordered<T>(s: Seq<(Seq<u8>, T)>, e: (Seq<u8>, T))
    requires
        key_ordered(s),
    ensures
        key_ordered(ins_by_key(s, e)),
    decreases s.len(),
{
    let r = ins_by_key(s, e);
    if s.len() == 0 {
    } else if bytes_lt(e.0, s[0].0) {
        assert forall|i: int, j: int| 0 <= i < j < r.len() implies !bytes_lt(
            #[trigger] r[j].0,
            #[trigger] r[i].0,
        ) by {
            if i == 0 {
                assert(r[j] == s[j - 1]);
                if bytes_lt(s[j - 1].0, e.0) {
                    lemma_bytes_lt_transitive(s[j - 1].0, e.0, s[0].0);
                    if j - 1 == 0 {
                        lemma_bytes_lt_irreflexive(s[0].0);
                    }
                }
            } else {
                assert(r[i] == s[i - 1] && r[j] == s[j - 1]);
            }
        }
    } else {
        let d = s.drop_first();
        assert(key_ordered(d)) by {
            assert forall|i: int, j: int| 0 <= i < j < d.len() implies !bytes_lt(
                #[trigger] d[j].0,
                #[trigger] d[i].0,
            ) by {
                assert(d[i] == s[i + 1] && d[j] == s[j + 1]);
            }
        }
        lemma_ins_ordered(d, e);
        lemma_ins_contains(d, e);
        let t = ins_by_key(d, e);
        assert(r == seq![s[0]] + t);
        assert forall|i: int, j: int| 0 <= i < j < r.len() implies !bytes_lt(
            #[trigger] r[j].0,
            #[trigger] r[i].0,
        ) by {
            if i == 0 {
                assert(r[j] == t[j - 1]);
                assert(t.contains(t[j - 1]));
                if d.contains(t[j - 1]) {
                    let m = choose|m: int| 0 <= m < d.len() && d[m] == t[j - 1];
                    assert(s[m + 1] == d[m]);
                }
            } else {
                assert(r[i] == t[i - 1] && r[j] == t[j - 1]);
            }
        }
    }
}

/// Sorting yields a key-ordered sequence.
pub proof fn lemma_sort_ordered<T>(s: Seq<(Seq<u8>, T)>)
    ensures
        key_ordered(sort_by_key(s)),
    decreases s.len(),
{
    if s.len() > 0 {
        lemma_sort_ordered(s.drop_last());
        lemma_ins_ordered(sort_by_key(s.drop_last()), s.last());
    }
}

/// Sorting a key-ordered sequence leaves it unchanged.
pub proof fn lemma_sort_of_ordered<T>(s: Seq<(Seq<u8>, T)>)
    requires
        key_ordered(s),
    ensures
        sort_by_key(s) == s,
    decreases s.len(),
{
    if s.len() > 0 {
        let init = s.drop_last();
        assert(key_ordered(init)) by {
            assert forall|i: int, j: int| 0 <= i < j < init.len() implies !bytes_lt(
                #[trigger] init[j].0,
                #[trigger] init[i].0,
            ) by {
                assert(init[i] == s[i] && init[j] == s[j]);
            }
        }
        lemma_sort_of_ordered(init);
        assert forall|t: int| 0 <= t < init.len() implies !bytes_lt(s.last().0, #[trigger] init[t].0) by {
            assert(init[t] == s[t]);
        }
        lemma_ins_at(init, s.last(), init.len() as int);
        assert(init.take(init.len() as int) + seq![s.last()] + init.skip(init.len() as int) =~= s);
    }
}

/// Sorting twice is sorting once.
pub proof fn lemma_sort_idempotent<T>(s: Seq<(Seq<u8>, T)>)
    ensures
        sort_by_key(sort_by_key(s)) == sort_by_key(s),
{
    lemma_sort_ordered(s);
    lemma_sort_of_ordered(sort_by_key(s));
}

proof fn lemma_ins_map<T, U>(s: Seq<(Seq<u8>, T)>, e: (Seq<u8>, T), f: spec_fn(Seq<u8>, T) -> U)
    ensures
        ins_by_key(s.map_values(|p: (Seq<u8>, T)| (p.0, f(p.0, p.1))), (e.0, f(e.0, e.1)))
            == ins_by_key(s, e).map_values(|p: (Seq<u8>, T)| (p.0, f(p.0, p.1))),
    decreases s.len(),
{
    let g = |p: (Seq<u8>, T)| (p.0, f(p.0, p.1));
    if s.len() == 0 {
        assert(ins_by_key(s, e).map_values(g) =~= seq![g(e)]);
    } else if bytes_lt(e.0, s[0].0) {
        assert(ins_by_key(s, e).map_values(g) =~= seq![g(e)] + s.map_values(g));
    } else {
        lemma_ins_map(s.drop_first(), e, f);
        assert(s.map_values(g).drop_first() =~= s.drop_first().map_values(g));
        assert(ins_by_key(s, e).map_values(g) =~= seq![g(s[0])] + ins_by_key(s.drop_first(), e).map_values(g));
    }
}

/// Sorting only looks at keys: mapping every payload (keeping keys)
/// commutes with sorting.
pub proof fn lemma_sort_map<T, U>(s: Seq<(Seq<u8>, T)>, f: spec_fn(Seq<u8>, T) -> U)
    ensures
        sort_by_key(s.map_values(|p: (Seq<u8>, T)| (p.0, f(p.0, p.1)))) == sort_by_key(s).map_values(
            |p: (Seq<u8>, T)| (p.0, f(p.0, p.1)),
        ),
    decreases s.len(),
{
    let g = |p: (Seq<u8>, T)| (p.0, f(p.0, p.1));
    if s.len() > 0 {
        lemma_sort_map(s.drop_last(), f);
        assert(s.map_values(g).drop_last() =~= s.drop_last().map_values(g));
        lemma_ins_map(sort_by_key(s.drop_last()), s.last(), f);
    } else {
        assert(s.map_values(g) =~= Seq::<(Seq<u8>, U)>::empty());
    }
}

} // verus!
