//! A soft-state table kept as a vector of (key, value) pairs with distinct keys,
//! seen as a map.
use vstd::prelude::*;

verus! {

/// No two entries share a key.
pub open spec fn keys_unique<K, V>(s: Seq<(K, V)>) -> bool {
    forall|i: int, j: int| 0 <= i < s.len() && 0 <= j < s.len() && i != j ==> s[i].0 != s[j].0
}

pub open spec fn has_key<K, V>(s: Seq<(K, V)>, k: K) -> bool {
    exists|i: int| 0 <= i < s.len() && s[i].0 == k
}

/// The map that a sequence of entries with distinct keys stands for.
pub open spec fn entries_map<K, V>(s: Seq<(K, V)>) -> Map<K, V> {
    Map::new(
        |k: K| has_key(s, k),
        |k: K| s[choose|i: int| 0 <= i < s.len() && s[i].0 == k].1,
    )
}

/// The entries of `m` whose value satisfies `keep`.
pub open spec fn restrict<K, V>(m: Map<K, V>, keep: spec_fn(V) -> bool) -> Map<K, V> {
    Map::new(|k: K| m.contains_key(k) && keep(m[k]), |k: K| m[k])
}

pub proof fn lemma_entries_map_index<K, V>(s: Seq<(K, V)>, i: int)
    requires
        keys_unique(s),
        0 <= i < s.len(),
    ensures
        entries_map(s).contains_key(s[i].0),
        entries_map(s)[s[i].0] == s[i].1,
{
    let k = s[i].0;
    assert(has_key(s, k));
    let j = choose|j: int| 0 <= j < s.len() && s[j].0 == k;
    assert(j == i);
}

pub proof fn lemma_entries_map_push<K, V>(s: Seq<(K, V)>, k: K, v: V)
    requires
        keys_unique(s),
        !has_key(s, k),
    ensures
        keys_unique(s.push((k, v))),
        entries_map(s.push((k, v))) == entries_map(s).insert(k, v),
{
    let t = s.push((k, v));
    assert(keys_unique(t)) by {
        assert forall|i: int, j: int|
            0 <= i < t.len() && 0 <= j < t.len() && i != j implies t[i].0 != t[j].0 by {
            if i < s.len() && j < s.len() {
                assert(t[i] == s[i] && t[j] == s[j]);
            } else if i < s.len() {
                assert(t[i] == s[i]);
            } else {
                assert(t[j] == s[j]);
            }
        }
    }
    assert forall|kk: K| #[trigger] has_key(t, kk) <==> (has_key(s, kk) || kk == k) by {
        if has_key(s, kk) {
            let i = choose|i: int| 0 <= i < s.len() && s[i].0 == kk;
            assert(t[i] == s[i]);
        }
        if kk == k {
            assert(t[s.len() as int].0 == k);
        }
        if has_key(t, kk) && kk != k {
            let i = choose|i: int| 0 <= i < t.len() && t[i].0 == kk;
            assert(i < s.len());
            assert(s[i] == t[i]);
        }
    }
    assert forall|kk: K| #[trigger] entries_map(t).contains_key(kk) implies entries_map(t)[kk]
        == entries_map(s).insert(k, v)[kk] by {
        if kk == k {
            lemma_entries_map_index(t, s.len() as int);
        } else {
            let i = choose|i: int| 0 <= i < s.len() && s[i].0 == kk;
            assert(t[i] == s[i]);
            lemma_entries_map_index(t, i);
            lemma_entries_map_index(s, i);
        }
    }
    assert(entries_map(t) =~= entries_map(s).insert(k, v));
}

pub proof fn lemma_entries_map_update<K, V>(s: Seq<(K, V)>, i: int, v: V)
    requires
        keys_unique(s),
        0 <= i < s.len(),
    ensures
        keys_unique(s.update(i, (s[i].0, v))),
        entries_map(s.update(i, (s[i].0, v))) == entries_map(s).insert(s[i].0, v),
{
    let k = s[i].0;
    let t = s.update(i, (k, v));
    assert(keys_unique(t)) by {
        assert forall|a: int, b: int|
            0 <= a < t.len() && 0 <= b < t.len() && a != b implies t[a].0 != t[b].0 by {
            assert(t[a].0 == s[a].0 && t[b].0 == s[b].0);
        }
    }
    assert forall|kk: K| #[trigger] has_key(t, kk) <==> has_key(s, kk) by {
        if has_key(s, kk) {
            let j = choose|j: int| 0 <= j < s.len() && s[j].0 == kk;
            assert(t[j].0 == kk);
        }
        if has_key(t, kk) {
            let j = choose|j: int| 0 <= j < t.len() && t[j].0 == kk;
            assert(s[j].0 == kk);
        }
    }
    lemma_entries_map_index(s, i);
    assert forall|kk: K| #[trigger] entries_map(t).contains_key(kk) implies entries_map(t)[kk]
        == entries_map(s).insert(k, v)[kk] by {
        let j = choose|j: int| 0 <= j < s.len() && s[j].0 == kk;
        lemma_entries_map_index(t, j);
        if j != i {
            lemma_entries_map_index(s, j);
        }
    }
    assert(entries_map(t) =~= entries_map(s).insert(k, v));
}

pub proof fn lemma_entries_map_remove<K, V>(s: Seq<(K, V)>, i: int)
    requires
        keys_unique(s),
        0 <= i < s.len(),
    ensures
        keys_unique(s.remove(i)),
        entries_map(s.remove(i)) == entries_map(s).remove(s[i].0),
{
    let k = s[i].0;
    let t = s.remove(i);
    assert forall|j: int| 0 <= j < t.len() implies #[trigger] t[j] == s[if j < i { j } else { j + 1 }] by {}
    assert(keys_unique(t)) by {
        assert forall|a: int, b: int|
            0 <= a < t.len() && 0 <= b < t.len() && a != b implies t[a].0 != t[b].0 by {
            assert(t[a] == s[if a < i { a } else { a + 1 }]);
            assert(t[b] == s[if b < i { b } else { b + 1 }]);
        }
    }
    assert forall|kk: K| #[trigger] has_key(t, kk) <==> (has_key(s, kk) && kk != k) by {
        if has_key(s, kk) && kk != k {
            let j = choose|j: int| 0 <= j < s.len() && s[j].0 == kk;
            if j < i {
                assert(t[j] == s[j]);
            } else {
                assert(j != i);
                assert(t[j - 1] == s[j]);
            }
        }
        if has_key(t, kk) {
            let j = choose|j: int| 0 <= j < t.len() && t[j].0 == kk;
            assert(t[j] == s[if j < i { j } else { j + 1 }]);
        }
    }
    assert forall|kk: K| #[trigger] entries_map(t).contains_key(kk) implies entries_map(t)[kk]
        == entries_map(s).remove(k)[kk] by {
        let j = choose|j: int| 0 <= j < t.len() && t[j].0 == kk;
        let jj = if j < i { j } else { j + 1 };
        assert(t[j] == s[jj]);
        lemma_entries_map_index(t, j);
        lemma_entries_map_index(s, jj);
    }
    assert(entries_map(t) =~= entries_map(s).remove(k));
}

/// One step of rebuilding a table from the entries that `keep` accepts.
pub proof fn lemma_restrict_step<K, V>(s: Seq<(K, V)>, kept: Seq<(K, V)>, i: int, keep: spec_fn(V) -> bool)
    requires
        keys_unique(s),
        0 <= i < s.len(),
        keys_unique(kept),
        entries_map(kept) == restrict(entries_map(s.take(i)), keep),
    ensures
        ({
            let next = if keep(s[i].1) { kept.push(s[i]) } else { kept };
            keys_unique(next) && entries_map(next) == restrict(entries_map(s.take(i + 1)), keep)
        }),
{
    let pre = s.take(i);
    assert(s.take(i + 1) =~= pre.push(s[i]));
    assert(keys_unique(pre));
    assert(!has_key(pre, s[i].0)) by {
        if has_key(pre, s[i].0) {
            let j = choose|j: int| 0 <= j < pre.len() && pre[j].0 == s[i].0;
            assert(pre[j] == s[j]);
        }
    }
    assert(s[i] == (s[i].0, s[i].1));
    lemma_entries_map_push(pre, s[i].0, s[i].1);
    let m = entries_map(pre);
    assert(!m.contains_key(s[i].0));
    if keep(s[i].1) {
        assert(!entries_map(kept).contains_key(s[i].0));
        lemma_entries_map_push(kept, s[i].0, s[i].1);
        assert(restrict(m.insert(s[i].0, s[i].1), keep) =~= restrict(m, keep).insert(s[i].0, s[i].1));
    } else {
        assert(restrict(m.insert(s[i].0, s[i].1), keep) =~= restrict(m, keep));
    }
}

} // verus!
