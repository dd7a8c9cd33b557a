//! Association lists as maps: a sequence of distinct keys beside a sequence
//! of values, read as the map from each key to the value at its position.

use vstd::prelude::*;

verus! {

/// The map that sends the key at each position to the value at the same
/// position. Keys outside `keys` are not in its domain.
pub open spec fn pairing<K, V>(keys: Seq<K>, vals: Seq<V>) -> Map<K, V> {
    Map::new(|k: K| keys.contains(k), |k: K| vals[keys.index_of(k)])
}

/// With distinct keys, the pairing holds at each key the value at the key's
/// own position.
pub proof fn lemma_pairing_at<K, V>(keys: Seq<K>, vals: Seq<V>, i: int)
    requires
        keys.no_duplicates(),
        0 <= i < keys.len(),
    ensures
        keys.contains(keys[i]),
        keys.index_of(keys[i]) == i,
        pairing(keys, vals).dom().contains(keys[i]),
        pairing(keys, vals)[keys[i]] == vals[i],
{
}

/// Replacing the value at one position replaces what the pairing holds at
/// that position's key, and nothing else.
pub proof fn lemma_pairing_update<K, V>(keys: Seq<K>, vals: Seq<V>, i: int, v: V)
    requires
        keys.no_duplicates(),
        keys.len() == vals.len(),
        0 <= i < keys.len(),
    ensures
        pairing(keys, vals.update(i, v)) == pairing(keys, vals).insert(keys[i], v),
{
    lemma_pairing_at(keys, vals, i);
    assert(pairing(keys, vals.update(i, v)) =~= pairing(keys, vals).insert(keys[i], v));
}

/// Appending a key that is not yet present, with its value, adds that one
/// binding to the pairing and keeps the keys distinct.
pub proof fn lemma_pairing_push<K, V>(keys: Seq<K>, vals: Seq<V>, k: K, v: V)
    requires
        keys.no_duplicates(),
        keys.len() == vals.len(),
        !keys.contains(k),
    ensures
        keys.push(k).no_duplicates(),
        pairing(keys.push(k), vals.push(v)) == pairing(keys, vals).insert(k, v),
{
    let longer = keys.push(k);
    assert(longer[keys.len() as int] == k);
    assert forall|x: K| keys.contains(x) implies longer.contains(x) && longer.index_of(x)
        == keys.index_of(x) by {
        assert(longer[keys.index_of(x)] == x);
    }
    assert(pairing(longer, vals.push(v)) =~= pairing(keys, vals).insert(k, v));
}

} // verus!
