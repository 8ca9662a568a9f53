//! Lists of entries with distinct keys, read as maps from key to value.
use vstd::prelude::*;

verus! {

/// No two entries of `s` have the same key.
pub open spec fn keys_unique<E, K>(s: Seq<E>, key: spec_fn(E) -> K) -> bool {
    forall|i: int, j: int| 0 <= i < s.len() && 0 <= j < s.len() && i != j ==> key(s[i]) != key(s[j])
}

/// The map from each entry's key to its value.
pub open spec fn to_map<E, K, V>(s: Seq<E>, key: spec_fn(E) -> K, val: spec_fn(E) -> V) -> Map<K, V>
    decreases s.len(),
{
    if s.len() == 0 {
        Map::empty()
    } else {
        to_map(s.drop_last(), key, val).insert(key(s.last()), val(s.last()))
    }
}

/// A key is in the map exactly when some entry has it.
pub proof fn lemma_to_map_dom<E, K, V>(s: Seq<E>, key: spec_fn(E) -> K, val: spec_fn(E) -> V, k: K)
    ensures
        to_map(s, key, val).dom().contains(k) <==> exists|i: int| 0 <= i < s.len() && key(s[i]) == k,
    decreases s.len(),
{
    if s.len() > 0 {
        lemma_to_map_dom(s.drop_last(), key, val, k);
        if exists|i: int| 0 <= i < s.len() && key(s[i]) == k {
            let i = choose|i: int| 0 <= i < s.len() && key(s[i]) == k;
            if i < s.len() - 1 {
                assert(key(s.drop_last()[i]) == k);
            }
        }
        if exists|i: int| 0 <= i < s.drop_last().len() && key(s.drop_last()[i]) == k {
            let i = choose|i: int| 0 <= i < s.drop_last().len() && key(s.drop_last()[i]) == k;
            assert(key(s[i]) == k);
        }
    }
}

/// With distinct keys, the map sends the key of each entry to its value.
pub proof fn lemma_to_map_index<E, K, V>(s: Seq<E>, key: spec_fn(E) -> K, val: spec_fn(E) -> V, i: int)
    requires
        keys_unique(s, key),
        0 <= i < s.len(),
    ensures
        to_map(s, key, val).dom().contains(key(s[i])),
        to_map(s, key, val)[key(s[i])] == val(s[i]),
    decreases s.len(),
{
    if i < s.len() - 1 {
        lemma_to_map_index(s.drop_last(), key, val, i);
        assert(key(s[i]) != key(s.last()));
    }
}

/// Removing an entry removes its key.
pub proof fn lemma_to_map_remove<E, K, V>(s: Seq<E>, key: spec_fn(E) -> K, val: spec_fn(E) -> V, i: int)
    requires
        keys_unique(s, key),
        0 <= i < s.len(),
    ensures
        to_map(s.remove(i), key, val) == to_map(s, key, val).remove(key(s[i])),
        keys_unique(s.remove(i), key),
    decreases s.len(),
{
    let t = s.remove(i);
    if i == s.len() - 1 {
        assert(t =~= s.drop_last());
        lemma_to_map_dom(s.drop_last(), key, val, key(s[i]));
        assert(to_map(t, key, val) =~= to_map(s, key, val).remove(key(s[i])));
    } else {
        lemma_to_map_remove(s.drop_last(), key, val, i);
        assert(t.drop_last() =~= s.drop_last().remove(i));
        assert(t.last() == s.last());
        assert(key(s.last()) != key(s[i]));
        assert(to_map(t, key, val) =~= to_map(s, key, val).remove(key(s[i])));
    }
}

/// Adding an entry with a new key inserts it.
pub proof fn lemma_to_map_push<E, K, V>(s: Seq<E>, key: spec_fn(E) -> K, val: spec_fn(E) -> V, e: E)
    requires
        keys_unique(s, key),
        !to_map(s, key, val).dom().contains(key(e)),
    ensures
        to_map(s.push(e), key, val) == to_map(s, key, val).insert(key(e), val(e)),
        keys_unique(s.push(e), key),
{
    assert(s.push(e).drop_last() =~= s);
    assert forall|i: int| 0 <= i < s.len() implies key(s[i]) != key(e) by {
        lemma_to_map_index(s, key, val, i);
    }
}

/// Replacing an entry by one with the same key updates the value.
pub proof fn lemma_to_map_update<E, K, V>(
    s: Seq<E>,
    key: spec_fn(E) -> K,
    val: spec_fn(E) -> V,
    i: int,
    e: E,
)
    requires
        keys_unique(s, key),
        0 <= i < s.len(),
        key(e) == key(s[i]),
    ensures
        to_map(s.update(i, e), key, val) == to_map(s, key, val).insert(key(e), val(e)),
        keys_unique(s.update(i, e), key),
    decreases s.len(),
{
    let t = s.update(i, e);
    if i == s.len() - 1 {
        assert(t.drop_last() =~= s.drop_last());
        assert(to_map(t, key, val) =~= to_map(s, key, val).insert(key(e), val(e)));
    } else {
        lemma_to_map_update(s.drop_last(), key, val, i, e);
        assert(t.drop_last() =~= s.drop_last().update(i, e));
        assert(key(s.last()) != key(e));
        assert(to_map(t, key, val) =~= to_map(s, key, val).insert(key(e), val(e)));
    }
}

/// With distinct keys, the map has one key per entry.
pub proof fn lemma_to_map_len<E, K, V>(s: Seq<E>, key: spec_fn(E) -> K, val: spec_fn(E) -> V)
    requires
        keys_unique(s, key),
    ensures
        to_map(s, key, val).dom().finite(),
        to_map(s, key, val).dom().len() == s.len(),
    decreases s.len(),
{
    broadcast use vstd::set::group_set_axioms;

    if s.len() > 0 {
        let t = s.drop_last();
        assert forall|i: int, j: int| 0 <= i < t.len() && 0 <= j < t.len() && i != j implies key(
            t[i],
        ) != key(t[j]) by {
            assert(t[i] == s[i] && t[j] == s[j]);
        }
        lemma_to_map_len(t, key, val);
        lemma_to_map_dom(t, key, val, key(s.last()));
        if to_map(t, key, val).dom().contains(key(s.last())) {
            let i = choose|i: int| 0 <= i < t.len() && key(t[i]) == key(s.last());
            assert(t[i] == s[i]);
        }
    }
}

} // verus!
