//! Lists of `(key, value)` pairs used as ordered maps keyed by strings.
//!
//! A keyed list plays the part of a `BTreeMap<String, V>`: construction
//! through `keyed_insert` keeps the keys distinct and in ascending
//! (code point) order, which is the order in which such a map is walked.
use vstd::prelude::*;
use crate::text::{seq_less, str_eq, str_less, lemma_seq_less_total, lemma_seq_less_transitive};

verus! {

/// Index of the first entry whose key is `k`.
pub open spec fn key_index<V>(m: Seq<(String, V)>, k: Seq<char>) -> Option<int>
    decreases m.len(),
{
    if m.len() == 0 {
        None
    } else if m[0].0@ == k {
        Some(0)
    } else {
        match key_index(m.drop_first(), k) {
            Some(i) => Some(i + 1),
            None => None,
        }
    }
}

/// The value stored under `k`.
pub open spec fn key_lookup<V>(m: Seq<(String, V)>, k: Seq<char>) -> Option<V> {
    match key_index(m, k) {
        Some(i) => Some(m[i].1),
        None => None,
    }
}

/// Position at which a new key `k` is inserted: after every leading entry
/// whose key is smaller.
pub open spec fn insert_pos<V>(m: Seq<(String, V)>, k: Seq<char>) -> int
    decreases m.len(),
{
    if m.len() == 0 {
        0
    } else if seq_less(m[0].0@, k) {
        1 + insert_pos(m.drop_first(), k)
    } else {
        0
    }
}

/// `BTreeMap::insert`: replaces the value of an existing key, or inserts
/// the new entry in key order.
pub open spec fn keyed_insert<V>(m: Seq<(String, V)>, k: String, v: V) -> Seq<(String, V)> {
    match key_index(m, k@) {
        Some(i) => m.update(i, (k, v)),
        None => m.insert(insert_pos(m, k@), (k, v)),
    }
}

/// Keys strictly ascending.
pub open spec fn keys_sorted<V>(m: Seq<(String, V)>) -> bool {
    forall|i: int, j: int| 0 <= i < j < m.len() ==> seq_less(#[trigger] m[i].0@, #[trigger] m[j].0@)
}

pub proof fn lemma_key_index_bounds<V>(m: Seq<(String, V)>, k: Seq<char>)
    ensures
        key_index(m, k) matches Some(i) ==> 0 <= i < m.len() && m[i].0@ == k
            && forall|j: int| 0 <= j < i ==> m[j].0@ != k,
        key_index(m, k) is None ==> forall|j: int| 0 <= j < m.len() ==> m[j].0@ != k,
    decreases m.len(),
{
    if m.len() > 0 {
        lemma_key_index_bounds(m.drop_first(), k);
        if m[0].0@ != k {
            assert forall|j: int| 1 <= j < m.len() implies m[j] == m.drop_first()[j - 1] by {}
        }
    }
}

pub proof fn lemma_key_index_skip<V>(m: Seq<(String, V)>, k: Seq<char>, i: int)
    requires
        0 <= i <= m.len(),
        forall|j: int| 0 <= j < i ==> m[j].0@ != k,
    ensures
        key_index(m, k) == (match key_index(m.skip(i), k) { Some(x) => Some(x + i), None => None }),
    decreases i,
{
    if i > 0 {
        assert(m.drop_first().skip(i - 1) =~= m.skip(i));
        lemma_key_index_skip(m.drop_first(), k, i - 1);
    } else {
        assert(m.skip(0) =~= m);
    }
}

pub proof fn lemma_insert_pos_skip<V>(m: Seq<(String, V)>, k: Seq<char>, i: int)
    requires
        0 <= i <= m.len(),
        forall|j: int| 0 <= j < i ==> seq_less(m[j].0@, k),
    ensures
        insert_pos(m, k) == i + insert_pos(m.skip(i), k),
    decreases i,
{
    if i > 0 {
        assert(m.drop_first().skip(i - 1) =~= m.skip(i));
        lemma_insert_pos_skip(m.drop_first(), k, i - 1);
    } else {
        assert(m.skip(0) =~= m);
    }
}

proof fn lemma_insert_pos_props<V>(m: Seq<(String, V)>, k: Seq<char>)
    ensures
        0 <= insert_pos(m, k) <= m.len(),
        forall|j: int| 0 <= j < insert_pos(m, k) ==> seq_less(#[trigger] m[j].0@, k),
        insert_pos(m, k) < m.len() ==> !seq_less(m[insert_pos(m, k)].0@, k),
    decreases m.len(),
{
    if m.len() > 0 {
        lemma_insert_pos_props(m.drop_first(), k);
        assert forall|j: int| 1 <= j < m.len() implies m[j] == m.drop_first()[j - 1] by {}
    }
}

/// Inserting into a keyed list keeps its keys distinct and ascending: the
/// order in which a `BTreeMap` holds them.
pub proof fn lemma_keyed_insert_sorted<V>(m: Seq<(String, V)>, k: String, v: V)
    requires
        keys_sorted(m),
    ensures
        keys_sorted(keyed_insert(m, k, v)),
{
    lemma_key_index_bounds(m, k@);
    match key_index(m, k@) {
        Some(i) => {
            let r = keyed_insert(m, k, v);
            assert forall|a: int, b: int| 0 <= a < b < r.len() implies seq_less(#[trigger] r[a].0@, #[trigger] r[b].0@) by {
                assert(r[a].0@ == m[a].0@);
                assert(r[b].0@ == m[b].0@);
            }
        },
        None => {
            lemma_insert_pos_props(m, k@);
            let p = insert_pos(m, k@);
            let r = keyed_insert(m, k, v);
            if p < m.len() {
                lemma_seq_less_total(m[p].0@, k@);
            }
            assert forall|a: int, b: int| 0 <= a < b < r.len() implies seq_less(#[trigger] r[a].0@, #[trigger] r[b].0@) by {
                if b < p {
                } else if b == p {
                    assert(r[a] == m[a]);
                } else if a < p {
                    assert(r[a] == m[a]);
                    assert(r[b] == m[b - 1]);
                    if p < b - 1 {
                        lemma_seq_less_transitive(k@, m[p].0@, m[b - 1].0@);
                    }
                    lemma_seq_less_transitive(m[a].0@, k@, m[b - 1].0@);
                } else if a == p {
                    assert(r[b] == m[b - 1]);
                    if p < b - 1 {
                        lemma_seq_less_transitive(k@, m[p].0@, m[b - 1].0@);
                    }
                } else {
                    assert(r[a] == m[a - 1]);
                    assert(r[b] == m[b - 1]);
                }
            }
        },
    }
}

/// Lookup after insertion: the inserted key gives the new value, every
/// other key what it gave before.
pub proof fn lemma_keyed_insert_lookup<V>(m: Seq<(String, V)>, k: String, v: V, q: Seq<char>)
    ensures
        key_lookup(keyed_insert(m, k, v), q) == (if q == k@ { Some(v) } else { key_lookup(m, q) }),
{
    let r = keyed_insert(m, k, v);
    lemma_key_index_bounds(m, k@);
    lemma_key_index_bounds(m, q);
    lemma_key_index_bounds(r, q);
    lemma_insert_pos_props(m, k@);
    match key_index(m, k@) {
        Some(i) => {
            match key_index(r, q) {
                Some(x) => {
                    if q != k@ {
                        assert(r[x] == m[x]);
                        match key_index(m, q) {
                            Some(y) => {
                                if y < x {
                                    assert(r[y] == m[y]);
                                }
                            },
                            None => {},
                        }
                    } else {
                        if i < x {
                            assert(r[i].0@ == q);
                        }
                    }
                },
                None => {
                    if q == k@ {
                        assert(r[i].0@ == q);
                    } else {
                        match key_index(m, q) {
                            Some(y) => {
                                assert(r[y] == m[y]);
                            },
                            None => {},
                        }
                    }
                },
            }
        },
        None => {
            let p = insert_pos(m, k@);
            match key_index(r, q) {
                Some(x) => {
                    if q != k@ {
                        if x < p {
                            assert(r[x] == m[x]);
                        } else {
                            assert(r[x] == m[x - 1]);
                        }
                        match key_index(m, q) {
                            Some(y) => {
                                if y < p {
                                    assert(r[y] == m[y]);
                                } else {
                                    assert(r[y + 1] == m[y]);
                                }
                            },
                            None => {},
                        }
                    } else {
                        assert(r[p].0@ == q);
                        if x < p {
                            assert(r[x] == m[x]);
                        } else if x > p {
                        }
                    }
                },
                None => {
                    if q == k@ {
                        assert(r[p].0@ == q);
                    } else {
                        match key_index(m, q) {
                            Some(y) => {
                                if y < p {
                                    assert(r[y] == m[y]);
                                } else {
                                    assert(r[y + 1] == m[y]);
                                }
                            },
                            None => {},
                        }
                    }
                },
            }
        },
    }
}

/// Looks up the value stored under `k`.
pub fn keyed_get<'a, V>(m: &'a Vec<(String, V)>, k: &str) -> (res: Option<&'a V>)
    ensures
        match res {
            Some(v) => key_lookup(m@, k@) == Some(*v),
            None => key_lookup(m@, k@) is None,
        },
{
    let mut i: usize = 0;
    while i < m.len()
        invariant
            i <= m@.len(),
            forall|j: int| 0 <= j < i ==> m@[j].0@ != k@,
        decreases m@.len() - i,
    {
        if str_eq(m[i].0.as_str(), k) {
            proof {
                lemma_key_index_skip(m@, k@, i as int);
                assert(m@.skip(i as int)[0] == m@[i as int]);
            }
            return Some(&m[i].1);
        }
        i += 1;
    }
    proof {
        lemma_key_index_skip(m@, k@, i as int);
    }
    None
}

/// Whether some entry has key `k`.
pub fn keyed_contains<V>(m: &Vec<(String, V)>, k: &str) -> (res: bool)
    ensures
        res == (key_index(m@, k@) is Some),
{
    keyed_get(m, k).is_some()
}

/// `BTreeMap::insert` on a keyed list.
pub fn keyed_insert_exec<V>(m: &mut Vec<(String, V)>, k: String, v: V)
    ensures
        final(m)@ == keyed_insert(old(m)@, k, v),
{
    let mut i: usize = 0;
    while i < m.len()
        invariant
            i <= m@.len(),
            m@ == old(m)@,
            forall|j: int| 0 <= j < i ==> m@[j].0@ != k@,
        decreases m@.len() - i,
    {
        if str_eq(m[i].0.as_str(), k.as_str()) {
            proof {
                lemma_key_index_skip(m@, k@, i as int);
                assert(m@.skip(i as int)[0] == m@[i as int]);
            }
            m[i] = (k, v);
            return;
        }
        i += 1;
    }
    proof {
        lemma_key_index_skip(m@, k@, i as int);
    }
    let mut p: usize = 0;
    while p < m.len() && str_less(m[p].0.as_str(), k.as_str())
        invariant
            p <= m@.len(),
            m@ == old(m)@,
            forall|j: int| 0 <= j < p ==> seq_less(m@[j].0@, k@),
        decreases m@.len() - p,
    {
        p += 1;
    }
    proof {
        lemma_insert_pos_skip(m@, k@, p as int);
        if p < m@.len() {
            assert(m@.skip(p as int)[0] == m@[p as int]);
        }
    }
    m.insert(p, (k, v));
}

}

verus! {

// ---------------------------------------------------------------------
// The same operations on models whose keys are character sequences
// ---------------------------------------------------------------------

pub open spec fn gk_index<W>(m: Seq<(Seq<char>, W)>, k: Seq<char>) -> Option<int>
    decreases m.len(),
{
    if m.len() == 0 {
        None
    } else if m[0].0 == k {
        Some(0)
    } else {
        match gk_index(m.drop_first(), k) {
            Some(i) => Some(i + 1),
            None => None,
        }
    }
}

pub open spec fn gk_lookup<W>(m: Seq<(Seq<char>, W)>, k: Seq<char>) -> Option<W> {
    match gk_index(m, k) {
        Some(i) => Some(m[i].1),
        None => None,
    }
}

pub open spec fn gk_insert_pos<W>(m: Seq<(Seq<char>, W)>, k: Seq<char>) -> int
    decreases m.len(),
{
    if m.len() == 0 {
        0
    } else if seq_less(m[0].0, k) {
        1 + gk_insert_pos(m.drop_first(), k)
    } else {
        0
    }
}

/// Insertion into a sorted model, replacing an existing key.
pub open spec fn gk_insert<W>(m: Seq<(Seq<char>, W)>, k: Seq<char>, w: W) -> Seq<(Seq<char>, W)> {
    match gk_index(m, k) {
        Some(i) => m.update(i, (k, w)),
        None => m.insert(gk_insert_pos(m, k), (k, w)),
    }
}

/// The index found is the first entry with the key.
pub proof fn lemma_gk_index_first<W>(m: Seq<(Seq<char>, W)>, k: Seq<char>)
    ensures
        gk_index(m, k) matches Some(i) ==> 0 <= i < m.len() && m[i].0 == k
            && forall|j: int| 0 <= j < i ==> (#[trigger] m[j]).0 != k,
        gk_index(m, k) is None ==> forall|j: int| 0 <= j < m.len() ==> (#[trigger] m[j]).0 != k,
    decreases m.len(),
{
    if m.len() > 0 {
        lemma_gk_index_first(m.drop_first(), k);
        assert forall|j: int| 0 < j < m.len() implies (#[trigger] m[j]) == m.drop_first()[j - 1] by {}
    }
}

pub proof fn lemma_gk_insert_pos_bounds<W>(m: Seq<(Seq<char>, W)>, k: Seq<char>)
    ensures
        0 <= gk_insert_pos(m, k) <= m.len(),
    decreases m.len(),
{
    if m.len() > 0 {
        lemma_gk_insert_pos_bounds(m.drop_first(), k);
    }
}

/// Lookup after insertion into a model: the inserted key gives the new
/// value, every other key what it gave before.
pub proof fn lemma_gk_insert_lookup<W>(m: Seq<(Seq<char>, W)>, k: Seq<char>, w: W, q: Seq<char>)
    ensures
        gk_lookup(gk_insert(m, k, w), q) == (if q == k { Some(w) } else { gk_lookup(m, q) }),
{
    let r = gk_insert(m, k, w);
    lemma_gk_index_first(m, k);
    lemma_gk_index_first(m, q);
    lemma_gk_index_first(r, q);
    lemma_gk_insert_pos_bounds(m, k);
    match gk_index(m, k) {
        Some(i) => {
            assert(r[i].0 == k);
            match gk_index(r, q) {
                Some(x) => {
                    assert(r[x].0 == m[x].0);
                    if q == k {
                        if i < x {
                            assert(r[i].0 == q);
                        }
                        if x < i {
                            assert(m[x].0 == q);
                        }
                    } else {
                        match gk_index(m, q) {
                            Some(y) => {
                                assert(r[y].0 == m[y].0);
                            },
                            None => {},
                        }
                    }
                },
                None => {
                    match gk_index(m, q) {
                        Some(y) => {
                            assert(r[y].0 == m[y].0);
                        },
                        None => {},
                    }
                },
            }
        },
        None => {
            let p = gk_insert_pos(m, k);
            assert(r[p].0 == k);
            match gk_index(r, q) {
                Some(x) => {
                    if x < p {
                        assert(r[x] == m[x]);
                    } else if x > p {
                        assert(r[x] == m[x - 1]);
                    }
                    match gk_index(m, q) {
                        Some(y) => {
                            if y < p {
                                assert(r[y] == m[y]);
                            } else {
                                assert(r[y + 1] == m[y]);
                            }
                        },
                        None => {},
                    }
                },
                None => {
                    match gk_index(m, q) {
                        Some(y) => {
                            if y < p {
                                assert(r[y] == m[y]);
                            } else {
                                assert(r[y + 1] == m[y]);
                            }
                        },
                        None => {},
                    }
                },
            }
        },
    }
}

/// Lookup by key depends on the keys alone.
pub proof fn lemma_gk_index_same_keys<W, X>(a: Seq<(Seq<char>, W)>, b: Seq<(Seq<char>, X)>, k: Seq<char>)
    requires
        a.len() == b.len(),
        forall|i: int| 0 <= i < a.len() ==> (#[trigger] a[i]).0 == b[i].0,
    ensures
        gk_index(a, k) == gk_index(b, k),
    decreases a.len(),
{
    if a.len() > 0 {
        assert forall|i: int| 0 <= i < a.drop_first().len() implies (#[trigger] a.drop_first()[i]).0 == b.drop_first()[i].0 by {
            assert(a.drop_first()[i] == a[i + 1]);
            assert(b.drop_first()[i] == b[i + 1]);
        }
        lemma_gk_index_same_keys(a.drop_first(), b.drop_first(), k);
    }
}

/// The model of a keyed list: keys by their characters, values through `f`.
pub open spec fn kv_map<V, W>(m: Seq<(String, V)>, f: spec_fn(V) -> W) -> Seq<(Seq<char>, W)> {
    m.map_values(|p: (String, V)| (p.0@, f(p.1)))
}

pub proof fn lemma_kv_index<V, W>(m: Seq<(String, V)>, f: spec_fn(V) -> W, k: Seq<char>)
    ensures
        key_index(m, k) == gk_index(kv_map(m, f), k),
        insert_pos(m, k) == gk_insert_pos(kv_map(m, f), k),
    decreases m.len(),
{
    if m.len() > 0 {
        assert(kv_map(m.drop_first(), f) =~= kv_map(m, f).drop_first());
        lemma_kv_index(m.drop_first(), f, k);
    }
}

/// Looking up a key in the model of a keyed list.
pub proof fn lemma_kv_lookup<V, W>(m: Seq<(String, V)>, f: spec_fn(V) -> W, k: Seq<char>)
    ensures
        key_lookup(m, k) matches Some(x) ==> gk_lookup(kv_map(m, f), k) == Some(f(x)),
        key_lookup(m, k) is None ==> gk_lookup(kv_map(m, f), k) is None,
{
    lemma_kv_index(m, f, k);
    lemma_key_index_bounds(m, k);
}

pub proof fn lemma_insert_pos_bounds<V>(m: Seq<(String, V)>, k: Seq<char>)
    ensures
        0 <= insert_pos(m, k) <= m.len(),
    decreases m.len(),
{
    if m.len() > 0 {
        lemma_insert_pos_bounds(m.drop_first(), k);
    }
}

pub proof fn lemma_kv_insert<V, W>(m: Seq<(String, V)>, f: spec_fn(V) -> W, k: String, v: V)
    ensures
        kv_map(keyed_insert(m, k, v), f) == gk_insert(kv_map(m, f), k@, f(v)),
        key_lookup(m, k@) matches Some(x) ==> gk_lookup(kv_map(m, f), k@) == Some(f(x)),
        key_lookup(m, k@) is None ==> gk_lookup(kv_map(m, f), k@) is None,
{
    lemma_kv_index(m, f, k@);
    lemma_key_index_bounds(m, k@);
    lemma_insert_pos_bounds(m, k@);
    match key_index(m, k@) {
        Some(i) => {
            assert(kv_map(keyed_insert(m, k, v), f) =~= gk_insert(kv_map(m, f), k@, f(v)));
        },
        None => {
            assert(kv_map(keyed_insert(m, k, v), f) =~= gk_insert(kv_map(m, f), k@, f(v)));
        },
    }
}

/// Keys of a model strictly ascending.
pub open spec fn gk_sorted<W>(m: Seq<(Seq<char>, W)>) -> bool {
    forall|i: int, j: int| 0 <= i < j < m.len() ==> seq_less(#[trigger] m[i].0, #[trigger] m[j].0)
}

proof fn lemma_gk_insert_pos_props<W>(m: Seq<(Seq<char>, W)>, k: Seq<char>)
    ensures
        0 <= gk_insert_pos(m, k) <= m.len(),
        forall|j: int| 0 <= j < gk_insert_pos(m, k) ==> seq_less(#[trigger] m[j].0, k),
        gk_insert_pos(m, k) < m.len() ==> !seq_less(m[gk_insert_pos(m, k)].0, k),
    decreases m.len(),
{
    if m.len() > 0 {
        lemma_gk_insert_pos_props(m.drop_first(), k);
        assert forall|j: int| 1 <= j < m.len() implies m[j] == m.drop_first()[j - 1] by {}
    }
}

/// Insertion into a sorted model keeps it sorted.
pub proof fn lemma_gk_insert_sorted<W>(m: Seq<(Seq<char>, W)>, k: Seq<char>, w: W)
    requires
        gk_sorted(m),
    ensures
        gk_sorted(gk_insert(m, k, w)),
{
    lemma_gk_index_first(m, k);
    let r = gk_insert(m, k, w);
    match gk_index(m, k) {
        Some(i) => {
            assert forall|a: int, b: int| 0 <= a < b < r.len() implies seq_less(#[trigger] r[a].0, #[trigger] r[b].0) by {
                assert(r[a].0 == m[a].0);
                assert(r[b].0 == m[b].0);
            }
        },
        None => {
            lemma_gk_insert_pos_props(m, k);
            let p = gk_insert_pos(m, k);
            if p < m.len() {
                lemma_seq_less_total(m[p].0, k);
            }
            assert forall|a: int, b: int| 0 <= a < b < r.len() implies seq_less(#[trigger] r[a].0, #[trigger] r[b].0) by {
                if b < p {
                } else if b == p {
                    assert(r[a] == m[a]);
                } else if a < p {
                    assert(r[a] == m[a]);
                    assert(r[b] == m[b - 1]);
                    if p < b - 1 {
                        lemma_seq_less_transitive(k, m[p].0, m[b - 1].0);
                    }
                    lemma_seq_less_transitive(m[a].0, k, m[b - 1].0);
                } else if a == p {
                    assert(r[b] == m[b - 1]);
                    if p < b - 1 {
                        lemma_seq_less_transitive(k, m[p].0, m[b - 1].0);
                    }
                } else {
                    assert(r[a] == m[a - 1]);
                    assert(r[b] == m[b - 1]);
                }
            }
        },
    }
}

/// A keyed list is sorted exactly when its model is.
pub proof fn lemma_kv_sorted<V, W>(m: Seq<(String, V)>, f: spec_fn(V) -> W)
    ensures
        keys_sorted(m) <==> gk_sorted(kv_map(m, f)),
{
    let g = kv_map(m, f);
    if keys_sorted(m) {
        assert forall|a: int, b: int| 0 <= a < b < g.len() implies seq_less(#[trigger] g[a].0, #[trigger] g[b].0) by {
            assert(g[a].0 == m[a].0@);
            assert(g[b].0 == m[b].0@);
        }
    }
    if gk_sorted(g) {
        assert forall|a: int, b: int| 0 <= a < b < m.len() implies seq_less(#[trigger] m[a].0@, #[trigger] m[b].0@) by {
            assert(g[a].0 == m[a].0@);
            assert(g[b].0 == m[b].0@);
        }
    }
}

}
