//! Vectors of key/value pairs with distinct keys, seen as maps.
use vstd::prelude::*;

verus! {

/// No two entries have the same key.
pub open spec fn keys_unique<K: View, V>(s: Seq<(K, V)>) -> bool {
    forall|i: int, j: int|
        0 <= i < s.len() && 0 <= j < s.len() && i != j ==> #[trigger] s[i].0@ != #[trigger] s[j].0@
}

/// Some entry has key `k`.
pub open spec fn has_key<K: View, V>(s: Seq<(K, V)>, k: K::V) -> bool {
    exists|i: int| 0 <= i < s.len() && #[trigger] s[i].0@ == k
}

/// Position of the entry with key `k`.
pub open spec fn key_index<K: View, V>(s: Seq<(K, V)>, k: K::V) -> int {
    choose|i: int| 0 <= i < s.len() && #[trigger] s[i].0@ == k
}

/// The entries as a map from key to value.
pub open spec fn kv_map<K: View, V>(s: Seq<(K, V)>) -> Map<K::V, V> {
    Map::new(|k: K::V| has_key(s, k), |k: K::V| s[key_index(s, k)].1)
}

pub proof fn lemma_key_index<K: View, V>(s: Seq<(K, V)>, k: K::V, i: int)
    requires
        keys_unique(s),
        0 <= i < s.len(),
        s[i].0@ == k,
    ensures
        key_index(s, k) == i,
        has_key(s, k),
        kv_map(s).contains_key(k),
        kv_map(s)[k] == s[i].1,
{
    let w = key_index(s, k);
    assert(0 <= w < s.len() && s[w].0@ == k);
}

pub proof fn lemma_kv_push<K: View, V>(s: Seq<(K, V)>, e: (K, V))
    requires
        keys_unique(s),
        !has_key(s, e.0@),
    ensures
        keys_unique(s.push(e)),
        kv_map(s.push(e)) == kv_map(s).insert(e.0@, e.1),
{
    let t = s.push(e);
    assert forall|i: int, j: int| 0 <= i < t.len() && 0 <= j < t.len() && i != j implies #[trigger] t[i].0@
        != #[trigger] t[j].0@ by {
        if i < s.len() && j < s.len() {
            assert(s[i].0@ != s[j].0@);
        } else if i < s.len() {
            assert(t[i] == s[i]);
        } else {
            assert(t[j] == s[j]);
        }
    }
    assert forall|k: K::V| has_key(t, k) == (has_key(s, k) || k == e.0@) by {
        if has_key(s, k) {
            let w = key_index(s, k);
            assert(t[w] == s[w]);
        }
        if k == e.0@ {
            assert(t[s.len() as int].0@ == k);
        }
        if has_key(t, k) {
            let w = key_index(t, k);
            if w < s.len() {
                assert(t[w] == s[w]);
            }
        }
    }
    assert forall|k: K::V| #[trigger] kv_map(t).contains_key(k) implies kv_map(t)[k] == kv_map(s).insert(
        e.0@,
        e.1,
    )[k] by {
        if k == e.0@ {
            lemma_key_index(t, k, s.len() as int);
        } else {
            let w = key_index(s, k);
            lemma_key_index(s, k, w);
            assert(t[w] == s[w]);
            lemma_key_index(t, k, w);
        }
    }
    assert(kv_map(t) =~= kv_map(s).insert(e.0@, e.1));
}

pub proof fn lemma_kv_update<K: View, V>(s: Seq<(K, V)>, i: int, e: (K, V))
    requires
        keys_unique(s),
        0 <= i < s.len(),
        s[i].0@ == e.0@,
    ensures
        keys_unique(s.update(i, e)),
        kv_map(s.update(i, e)) == kv_map(s).insert(e.0@, e.1),
{
    let t = s.update(i, e);
    assert forall|a: int, b: int| 0 <= a < t.len() && 0 <= b < t.len() && a != b implies #[trigger] t[a].0@
        != #[trigger] t[b].0@ by {
        assert(s[a].0@ != s[b].0@);
    }
    assert forall|k: K::V| has_key(t, k) == has_key(s, k) by {
        if has_key(s, k) {
            let w = key_index(s, k);
            assert(t[w].0@ == s[w].0@);
        }
        if has_key(t, k) {
            let w = key_index(t, k);
            assert(t[w].0@ == s[w].0@);
        }
    }
    lemma_key_index(s, e.0@, i);
    assert forall|k: K::V| #[trigger] kv_map(t).contains_key(k) implies kv_map(t)[k] == kv_map(s).insert(
        e.0@,
        e.1,
    )[k] by {
        let w = key_index(t, k);
        lemma_key_index(t, k, w);
        if k != e.0@ {
            lemma_key_index(s, k, w);
        }
    }
    assert(kv_map(t) =~= kv_map(s).insert(e.0@, e.1));
}

pub proof fn lemma_kv_remove<K: View, V>(s: Seq<(K, V)>, i: int)
    requires
        keys_unique(s),
        0 <= i < s.len(),
    ensures
        keys_unique(s.remove(i)),
        kv_map(s.remove(i)) == kv_map(s).remove(s[i].0@),
{
    let t = s.remove(i);
    let k0 = s[i].0@;
    assert forall|a: int, b: int| 0 <= a < t.len() && 0 <= b < t.len() && a != b implies #[trigger] t[a].0@
        != #[trigger] t[b].0@ by {
        let sa = if a < i { a } else { a + 1 };
        let sb = if b < i { b } else { b + 1 };
        assert(t[a] == s[sa]);
        assert(t[b] == s[sb]);
        assert(s[sa].0@ != s[sb].0@);
    }
    assert forall|k: K::V| has_key(t, k) == (has_key(s, k) && k != k0) by {
        if has_key(s, k) && k != k0 {
            let w = key_index(s, k);
            assert(w != i);
            if w < i {
                assert(t[w] == s[w]);
            } else {
                assert(t[w - 1] == s[w]);
            }
        }
        if has_key(t, k) {
            let w = key_index(t, k);
            let sw = if w < i { w } else { w + 1 };
            assert(t[w] == s[sw]);
            assert(sw != i);
            assert(s[sw].0@ != s[i].0@);
        }
    }
    assert forall|k: K::V| #[trigger] kv_map(t).contains_key(k) implies kv_map(t)[k] == kv_map(s).remove(
        k0,
    )[k] by {
        let w = key_index(t, k);
        lemma_key_index(t, k, w);
        let sw = if w < i { w } else { w + 1 };
        assert(t[w] == s[sw]);
        lemma_key_index(s, k, sw);
    }
    assert(kv_map(t) =~= kv_map(s).remove(k0));
}

} // verus!
