//! Lists of entries whose keys are told apart by a view of the key, and the
//! map that such a list makes.
use vstd::prelude::*;

verus! {

/// No two entries have keys with the same view.
pub open spec fn distinct_by<K, KV, V>(e: Seq<(K, V)>, f: spec_fn(K) -> KV) -> bool {
    forall|i: int, j: int| #![trigger e[i], e[j]] 0 <= i < j < e.len() ==> f(e[i].0) != f(e[j].0)
}

/// The views of the keys, in the order of the entries.
pub open spec fn keys_by<K, KV, V>(e: Seq<(K, V)>, f: spec_fn(K) -> KV) -> Seq<KV> {
    e.map_values(|x: (K, V)| f(x.0))
}

/// The position of an entry whose key has view `k`.
pub open spec fn index_by<K, KV, V>(e: Seq<(K, V)>, f: spec_fn(K) -> KV, k: KV) -> int {
    choose|i: int| 0 <= i < e.len() && f(e[i].0) == k
}

/// The map that the entries make, keyed by the views of their keys.
pub open spec fn map_by<K, KV, V>(e: Seq<(K, V)>, f: spec_fn(K) -> KV) -> Map<KV, V> {
    Map::new(
        |k: KV| exists|i: int| 0 <= i < e.len() && f(e[i].0) == k,
        |k: KV| e[index_by(e, f, k)].1,
    )
}

/// An entry's key is in the map, with the entry's value.
pub proof fn lemma_entry_by<K, KV, V>(e: Seq<(K, V)>, f: spec_fn(K) -> KV, i: int)
    requires
        distinct_by(e, f),
        0 <= i < e.len(),
    ensures
        map_by(e, f).contains_key(f(e[i].0)),
        map_by(e, f)[f(e[i].0)] == e[i].1,
        keys_by(e, f)[i] == f(e[i].0),
{
    let k = f(e[i].0);
    let j = index_by(e, f, k);
    assert(f(e[i].0) == k);
    if j != i {
        if j < i {
            assert(f(e[j].0) != f(e[i].0));
        } else {
            assert(f(e[i].0) != f(e[j].0));
        }
    }
}

/// The keys have no duplicates, are those of the map, and give the entries'
/// values.
pub proof fn lemma_keys_by<K, KV, V>(e: Seq<(K, V)>, f: spec_fn(K) -> KV)
    requires
        distinct_by(e, f),
    ensures
        keys_by(e, f).len() == e.len(),
        keys_by(e, f).no_duplicates(),
        forall|k: KV| map_by(e, f).contains_key(k) <==> keys_by(e, f).contains(k),
        forall|i: int|
            0 <= i < e.len() ==> #[trigger] map_by(e, f)[keys_by(e, f)[i]] == e[i].1,
{
    let ks = keys_by(e, f);
    assert forall|a: int, b: int| 0 <= a < ks.len() && 0 <= b < ks.len() && a != b implies ks[a]
        != ks[b] by {
        if a < b {
            assert(f(e[a].0) != f(e[b].0));
        } else {
            assert(f(e[b].0) != f(e[a].0));
        }
    }
    assert forall|k: KV| map_by(e, f).contains_key(k) <==> ks.contains(k) by {
        if map_by(e, f).contains_key(k) {
            let i = choose|i: int| 0 <= i < e.len() && f(e[i].0) == k;
            assert(ks[i] == k);
        }
        if ks.contains(k) {
            let i = choose|i: int| 0 <= i < ks.len() && ks[i] == k;
            assert(f(e[i].0) == k);
        }
    }
    assert forall|i: int| 0 <= i < e.len() implies #[trigger] map_by(e, f)[ks[i]] == e[i].1 by {
        lemma_entry_by(e, f, i);
    }
}

/// No entries make the empty map.
pub proof fn lemma_empty_by<K, KV, V>(f: spec_fn(K) -> KV)
    ensures
        distinct_by(Seq::<(K, V)>::empty(), f),
        map_by(Seq::<(K, V)>::empty(), f) == Map::<KV, V>::empty(),
        keys_by(Seq::<(K, V)>::empty(), f) == Seq::<KV>::empty(),
{
    assert(map_by(Seq::<(K, V)>::empty(), f) =~= Map::<KV, V>::empty());
    assert(keys_by(Seq::<(K, V)>::empty(), f) =~= Seq::<KV>::empty());
}

/// Replacing the entry of a key sets the key's value.
pub proof fn lemma_update_by<K, KV, V>(e: Seq<(K, V)>, f: spec_fn(K) -> KV, i: int, k: K, v: V)
    requires
        distinct_by(e, f),
        0 <= i < e.len(),
        f(k) == f(e[i].0),
    ensures
        distinct_by(e.update(i, (k, v)), f),
        map_by(e.update(i, (k, v)), f) == map_by(e, f).insert(f(k), v),
{
    let n = e.update(i, (k, v));
    assert forall|a: int, b: int| #![trigger n[a], n[b]] 0 <= a < b < n.len() implies f(n[a].0)
        != f(n[b].0) by {
        assert(f(n[a].0) == f(e[a].0));
        assert(f(n[b].0) == f(e[b].0));
    }
    let m = map_by(e, f).insert(f(k), v);
    assert forall|x: KV| #[trigger] map_by(n, f).contains_key(x) <==> m.contains_key(x) by {
        if map_by(n, f).contains_key(x) {
            let j = choose|j: int| 0 <= j < n.len() && f(n[j].0) == x;
            if j != i {
                assert(f(e[j].0) == x);
            }
        }
        if m.contains_key(x) && x != f(k) {
            let j = choose|j: int| 0 <= j < e.len() && f(e[j].0) == x;
            assert(f(n[j].0) == x);
        }
        if x == f(k) {
            assert(f(n[i].0) == x);
        }
    }
    assert forall|x: KV| #[trigger] map_by(n, f).contains_key(x) implies map_by(n, f)[x] == m[x] by {
        let j = choose|j: int| 0 <= j < n.len() && f(n[j].0) == x;
        lemma_entry_by(n, f, j);
        if j != i {
            lemma_entry_by(e, f, j);
        }
    }
    assert(map_by(n, f) =~= m);
}

/// A new key after the others gets its value.
pub proof fn lemma_push_by<K, KV, V>(e: Seq<(K, V)>, f: spec_fn(K) -> KV, k: K, v: V)
    requires
        distinct_by(e, f),
        !map_by(e, f).contains_key(f(k)),
    ensures
        distinct_by(e.push((k, v)), f),
        map_by(e.push((k, v)), f) == map_by(e, f).insert(f(k), v),
{
    let n = e.push((k, v));
    assert forall|a: int, b: int| #![trigger n[a], n[b]] 0 <= a < b < n.len() implies f(n[a].0)
        != f(n[b].0) by {
        if b == e.len() {
            assert(n[a] == e[a]);
            assert(map_by(e, f).contains_key(f(e[a].0)));
        } else {
            assert(n[a] == e[a] && n[b] == e[b]);
        }
    }
    let m = map_by(e, f).insert(f(k), v);
    assert forall|x: KV| #[trigger] map_by(n, f).contains_key(x) <==> m.contains_key(x) by {
        if map_by(n, f).contains_key(x) {
            let j = choose|j: int| 0 <= j < n.len() && f(n[j].0) == x;
            if j < e.len() {
                assert(n[j] == e[j]);
            }
        }
        if m.contains_key(x) && x != f(k) {
            let j = choose|j: int| 0 <= j < e.len() && f(e[j].0) == x;
            assert(n[j] == e[j]);
        }
        if x == f(k) {
            assert(f(n[e.len() as int].0) == x);
        }
    }
    assert forall|x: KV| #[trigger] map_by(n, f).contains_key(x) implies map_by(n, f)[x] == m[x] by {
        let j = choose|j: int| 0 <= j < n.len() && f(n[j].0) == x;
        lemma_entry_by(n, f, j);
        if j < e.len() {
            assert(n[j] == e[j]);
            lemma_entry_by(e, f, j);
        }
    }
    assert(map_by(n, f) =~= m);
}

/// Taking an entry out removes its key.
pub proof fn lemma_remove_by<K, KV, V>(e: Seq<(K, V)>, f: spec_fn(K) -> KV, i: int)
    requires
        distinct_by(e, f),
        0 <= i < e.len(),
    ensures
        distinct_by(e.remove(i), f),
        map_by(e.remove(i), f) == map_by(e, f).remove(f(e[i].0)),
{
    let n = e.remove(i);
    let k = f(e[i].0);
    assert forall|a: int, b: int| #![trigger n[a], n[b]] 0 <= a < b < n.len() implies f(n[a].0)
        != f(n[b].0) by {
        if a < i {
            if b < i {
                assert(n[a] == e[a] && n[b] == e[b]);
            } else {
                assert(n[a] == e[a] && n[b] == e[b + 1]);
            }
        } else {
            assert(n[a] == e[a + 1] && n[b] == e[b + 1]);
        }
    }
    let m = map_by(e, f).remove(k);
    assert forall|x: KV| #[trigger] map_by(n, f).contains_key(x) <==> m.contains_key(x) by {
        if map_by(e, f).contains_key(x) && x != k {
            let j = choose|j: int| 0 <= j < e.len() && f(e[j].0) == x;
            if j < i {
                assert(n[j] == e[j]);
            } else {
                assert(j != i);
                assert(n[j - 1] == e[j]);
            }
        }
        if map_by(n, f).contains_key(x) {
            let j = choose|j: int| 0 <= j < n.len() && f(n[j].0) == x;
            if j < i {
                assert(n[j] == e[j]);
                assert(f(e[j].0) != f(e[i].0));
            } else {
                assert(n[j] == e[j + 1]);
                assert(f(e[i].0) != f(e[j + 1].0));
            }
        }
    }
    assert forall|x: KV| #[trigger] map_by(n, f).contains_key(x) implies map_by(n, f)[x] == m[x] by {
        let j = choose|j: int| 0 <= j < n.len() && f(n[j].0) == x;
        lemma_entry_by(n, f, j);
        if j < i {
            assert(n[j] == e[j]);
            lemma_entry_by(e, f, j);
        } else {
            assert(n[j] == e[j + 1]);
            lemma_entry_by(e, f, j + 1);
        }
    }
    assert(map_by(n, f) =~= m);
}

/// Entries with the same key views and values make the same map.
pub proof fn lemma_same_by<K, KV, V>(e1: Seq<(K, V)>, e2: Seq<(K, V)>, f: spec_fn(K) -> KV)
    requires
        distinct_by(e1, f),
        e1.len() == e2.len(),
        forall|i: int| #![trigger e2[i]] 0 <= i < e1.len() ==> f(e2[i].0) == f(e1[i].0) && e2[i].1 == e1[i].1,
    ensures
        distinct_by(e2, f),
        keys_by(e2, f) == keys_by(e1, f),
        map_by(e2, f) == map_by(e1, f),
{
    assert forall|a: int, b: int| #![trigger e2[a], e2[b]] 0 <= a < b < e2.len() implies f(e2[a].0)
        != f(e2[b].0) by {
        assert(f(e1[a].0) != f(e1[b].0));
    }
    assert(keys_by(e2, f) =~= keys_by(e1, f));
    assert forall|x: KV| #[trigger] map_by(e2, f).contains_key(x) <==> map_by(e1, f).contains_key(x) by {
        if map_by(e2, f).contains_key(x) {
            let j = choose|j: int| 0 <= j < e2.len() && f(e2[j].0) == x;
            assert(f(e1[j].0) == x);
        }
        if map_by(e1, f).contains_key(x) {
            let j = choose|j: int| 0 <= j < e1.len() && f(e1[j].0) == x;
            assert(f(e2[j].0) == x);
        }
    }
    assert forall|x: KV| #[trigger] map_by(e2, f).contains_key(x) implies map_by(e2, f)[x]
        == map_by(e1, f)[x] by {
        let j = choose|j: int| 0 <= j < e2.len() && f(e2[j].0) == x;
        lemma_entry_by(e2, f, j);
        lemma_entry_by(e1, f, j);
    }
    assert(map_by(e2, f) =~= map_by(e1, f));
}

} // verus!
