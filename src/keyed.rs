//! Sequences of records that each carry a key, read as finite maps.
//!
//! The library stores its records in vectors whose keys are pairwise
//! distinct; the lemmas here relate the edits made on such a vector to the
//! corresponding edits of the map that it stands for.
use vstd::prelude::*;

verus! {

/// No two positions of `s` carry the same key.
pub open spec fn keys_unique<K, V>(s: Seq<V>, key: spec_fn(V) -> K) -> bool {
    forall|i: int, j: int|
        0 <= i < s.len() && 0 <= j < s.len() && #[trigger] key(s[i]) == #[trigger] key(s[j])
            ==> i == j
}

/// Some position of `s` carries the key `k`.
pub open spec fn has_key<K, V>(s: Seq<V>, key: spec_fn(V) -> K, k: K) -> bool {
    exists|i: int| 0 <= i < s.len() && #[trigger] key(s[i]) == k
}

/// The map from each key that occurs in `s` to the record that carries it.
pub open spec fn keyed_map<K, V>(s: Seq<V>, key: spec_fn(V) -> K) -> Map<K, V> {
    Map::new(
        |k: K| has_key(s, key, k),
        |k: K| s[choose|i: int| 0 <= i < s.len() && #[trigger] key(s[i]) == k],
    )
}

/// With distinct keys, the record at position `i` is the one the map gives
/// for its key.
pub proof fn lemma_keyed_at<K, V>(s: Seq<V>, key: spec_fn(V) -> K, i: int)
    requires
        keys_unique(s, key),
        0 <= i < s.len(),
    ensures
        keyed_map(s, key).contains_key(key(s[i])),
        keyed_map(s, key)[key(s[i])] == s[i],
{
    let k = key(s[i]);
    assert(has_key(s, key, k));
    let j = choose|j: int| 0 <= j < s.len() && #[trigger] key(s[j]) == k;
    assert(key(s[j]) == key(s[i]));
}

/// Replacing a record by one with the same key replaces the map's entry.
pub proof fn lemma_keyed_update<K, V>(s: Seq<V>, key: spec_fn(V) -> K, i: int, v: V)
    requires
        keys_unique(s, key),
        0 <= i < s.len(),
        key(v) == key(s[i]),
    ensures
        keys_unique(s.update(i, v), key),
        keyed_map(s.update(i, v), key) == keyed_map(s, key).insert(key(v), v),
{
    let t = s.update(i, v);
    assert forall|a: int, b: int|
        0 <= a < t.len() && 0 <= b < t.len() && #[trigger] key(t[a]) == #[trigger] key(t[b])
        implies a == b by {
        assert(key(t[a]) == key(s[a]));
        assert(key(t[b]) == key(s[b]));
    }
    lemma_keyed_at(t, key, i);
    let m = keyed_map(s, key).insert(key(v), v);
    assert forall|k: K| #[trigger] keyed_map(t, key).contains_key(k) == m.contains_key(k) by {
        if has_key(t, key, k) {
            let j = choose|j: int| 0 <= j < t.len() && #[trigger] key(t[j]) == k;
            assert(key(s[j]) == k);
        }
        if has_key(s, key, k) {
            let j = choose|j: int| 0 <= j < s.len() && #[trigger] key(s[j]) == k;
            assert(key(t[j]) == k);
        }
    }
    assert forall|k: K| #[trigger] m.contains_key(k) implies keyed_map(t, key)[k] == m[k] by {
        if k != key(v) {
            let j = choose|j: int| 0 <= j < s.len() && #[trigger] key(s[j]) == k;
            assert(j != i);
            assert(key(t[j]) == k);
            lemma_keyed_at(t, key, j);
            lemma_keyed_at(s, key, j);
        }
    }
    assert(keyed_map(t, key) =~= m);
}

/// Appending a record with a new key adds that entry to the map.
pub proof fn lemma_keyed_push<K, V>(s: Seq<V>, key: spec_fn(V) -> K, v: V)
    requires
        keys_unique(s, key),
        !has_key(s, key, key(v)),
    ensures
        keys_unique(s.push(v), key),
        keyed_map(s.push(v), key) == keyed_map(s, key).insert(key(v), v),
{
    let t = s.push(v);
    let n = s.len() as int;
    assert forall|a: int, b: int|
        0 <= a < t.len() && 0 <= b < t.len() && #[trigger] key(t[a]) == #[trigger] key(t[b])
        implies a == b by {
        if a < n && b == n {
            assert(key(s[a]) == key(v));
        } else if b < n && a == n {
            assert(key(s[b]) == key(v));
        } else if a < n && b < n {
            assert(key(s[a]) == key(s[b]));
        }
    }
    lemma_keyed_at(t, key, n);
    let m = keyed_map(s, key).insert(key(v), v);
    assert forall|k: K| #[trigger] keyed_map(t, key).contains_key(k) == m.contains_key(k) by {
        if has_key(t, key, k) && k != key(v) {
            let j = choose|j: int| 0 <= j < t.len() && #[trigger] key(t[j]) == k;
            assert(j < n);
            assert(key(s[j]) == k);
        }
        if has_key(s, key, k) {
            let j = choose|j: int| 0 <= j < s.len() && #[trigger] key(s[j]) == k;
            assert(key(t[j]) == k);
        }
    }
    assert forall|k: K| #[trigger] m.contains_key(k) implies keyed_map(t, key)[k] == m[k] by {
        if k != key(v) {
            let j = choose|j: int| 0 <= j < s.len() && #[trigger] key(s[j]) == k;
            assert(t[j] == s[j]);
            lemma_keyed_at(t, key, j);
            lemma_keyed_at(s, key, j);
        }
    }
    assert(keyed_map(t, key) =~= m);
}

/// Removing the record at position `i` removes its key from the map.
pub proof fn lemma_keyed_remove<K, V>(s: Seq<V>, key: spec_fn(V) -> K, i: int)
    requires
        keys_unique(s, key),
        0 <= i < s.len(),
    ensures
        keys_unique(s.remove(i), key),
        keyed_map(s.remove(i), key) == keyed_map(s, key).remove(key(s[i])),
{
    let t = s.remove(i);
    let src = |a: int| if a < i { a } else { a + 1 };
    assert forall|a: int, b: int|
        0 <= a < t.len() && 0 <= b < t.len() && #[trigger] key(t[a]) == #[trigger] key(t[b])
        implies a == b by {
        assert(t[a] == s[src(a)]);
        assert(t[b] == s[src(b)]);
        assert(key(s[src(a)]) == key(s[src(b)]));
    }
    let m = keyed_map(s, key).remove(key(s[i]));
    assert forall|k: K| #[trigger] keyed_map(t, key).contains_key(k) == m.contains_key(k) by {
        if has_key(t, key, k) {
            let j = choose|j: int| 0 <= j < t.len() && #[trigger] key(t[j]) == k;
            assert(t[j] == s[src(j)]);
            assert(key(s[src(j)]) == k);
            assert(k != key(s[i]));
        }
        if has_key(s, key, k) && k != key(s[i]) {
            let j = choose|j: int| 0 <= j < s.len() && #[trigger] key(s[j]) == k;
            assert(j != i);
            let a = if j < i { j } else { j - 1 };
            assert(t[a] == s[j]);
            assert(key(t[a]) == k);
        }
    }
    assert forall|k: K| #[trigger] m.contains_key(k) implies keyed_map(t, key)[k] == m[k] by {
        let j = choose|j: int| 0 <= j < s.len() && #[trigger] key(s[j]) == k;
        assert(j != i);
        let a = if j < i { j } else { j - 1 };
        assert(t[a] == s[j]);
        lemma_keyed_at(t, key, a);
        lemma_keyed_at(s, key, j);
    }
    assert(keyed_map(t, key) =~= m);
}

} // verus!
