//! Maps kept as two sequences of one length: keys without repetition, and
//! the value of each key at the key's position.

use vstd::prelude::*;

verus! {

/// The map that holds `values[i]` under `keys[i]`.
pub open spec fn pairs_map<K, V>(keys: Seq<K>, values: Seq<V>) -> Map<K, V> {
    Map::new(|key: K| keys.contains(key), |key: K| values[keys.index_of(key)])
}

/// The map holds each value under the key at its position.
pub proof fn lemma_pair<K, V>(keys: Seq<K>, values: Seq<V>, at: int)
    requires
        keys.no_duplicates(),
        0 <= at < keys.len(),
    ensures
        pairs_map(keys, values).dom().contains(keys[at]),
        pairs_map(keys, values)[keys[at]] == values[at],
{
}

/// A new value in place of the one under the key at `at`.
pub proof fn lemma_pair_updated<K, V>(keys: Seq<K>, values: Seq<V>, at: int, value: V)
    requires
        keys.no_duplicates(),
        0 <= at < keys.len() == values.len(),
    ensures
        pairs_map(keys, values.update(at, value)) == pairs_map(keys, values).insert(
            keys[at],
            value,
        ),
{
    let after = pairs_map(keys, values.update(at, value));
    let expected = pairs_map(keys, values).insert(keys[at], value);
    assert forall|key: K| keys.contains(key) implies after[key] == expected[key] by {
        let i = keys.index_of(key);
        lemma_pair(keys, values, i);
        lemma_pair(keys, values.update(at, value), i);
    }
}

/// A value under a key that was free.
pub proof fn lemma_pair_pushed<K, V>(keys: Seq<K>, values: Seq<V>, key: K, value: V)
    requires
        keys.no_duplicates(),
        keys.len() == values.len(),
        !keys.contains(key),
    ensures
        keys.push(key).no_duplicates(),
        pairs_map(keys.push(key), values.push(value)) == pairs_map(keys, values).insert(
            key,
            value,
        ),
{
    let more_keys = keys.push(key);
    let more_values = values.push(value);
    let last = keys.len() as int;
    assert(more_keys[last] == key);
    assert forall|k: K| keys.contains(k) implies more_keys.contains(k) by {
        assert(more_keys[keys.index_of(k)] == k);
    }
    let after = pairs_map(more_keys, more_values);
    let expected = pairs_map(keys, values).insert(key, value);
    assert forall|k: K| more_keys.contains(k) implies after[k] == expected[k] by {
        let i = more_keys.index_of(k);
        lemma_pair(more_keys, more_values, i);
        if i < last {
            lemma_pair(keys, values, i);
        }
    }
}

/// A value under a key that was free, with the pair put at the position `at`.
pub proof fn lemma_pair_inserted<K, V>(keys: Seq<K>, values: Seq<V>, at: int, key: K, value: V)
    requires
        keys.no_duplicates(),
        0 <= at <= keys.len() == values.len(),
        !keys.contains(key),
    ensures
        keys.insert(at, key).no_duplicates(),
        pairs_map(keys.insert(at, key), values.insert(at, value)) == pairs_map(
            keys,
            values,
        ).insert(key, value),
{
    let more_keys = keys.insert(at, key);
    let more_values = values.insert(at, value);
    assert(more_keys[at] == key);
    assert forall|i: int, j: int|
        0 <= i < more_keys.len() && 0 <= j < more_keys.len() && i != j implies more_keys[i]
        != more_keys[j] by {
        if i != at {
            assert(keys.contains(more_keys[i]));
        }
        if j != at {
            assert(keys.contains(more_keys[j]));
        }
    }
    assert forall|k: K| keys.contains(k) implies more_keys.contains(k) by {
        let before = keys.index_of(k);
        let i = if before < at { before } else { before + 1 };
        assert(more_keys[i] == k);
    }
    let after = pairs_map(more_keys, more_values);
    let expected = pairs_map(keys, values).insert(key, value);
    assert forall|k: K| more_keys.contains(k) implies after[k] == expected[k] by {
        let i = more_keys.index_of(k);
        lemma_pair(more_keys, more_values, i);
        if i != at {
            let before = if i < at { i } else { i - 1 };
            lemma_pair(keys, values, before);
        }
    }
    assert(after =~= expected);
}

/// Without the key at `at` and its value.
pub proof fn lemma_pair_removed<K, V>(keys: Seq<K>, values: Seq<V>, at: int)
    requires
        keys.no_duplicates(),
        0 <= at < keys.len() == values.len(),
    ensures
        keys.remove(at).no_duplicates(),
        pairs_map(keys.remove(at), values.remove(at)) == pairs_map(keys, values).remove(keys[at]),
{
    let fewer_keys = keys.remove(at);
    let fewer_values = values.remove(at);
    let gone = keys[at];
    assert forall|k: K| keys.contains(k) && k != gone implies fewer_keys.contains(k) by {
        let before = keys.index_of(k);
        let i = if before < at { before } else { before - 1 };
        assert(fewer_keys[i] == k);
    }
    let after = pairs_map(fewer_keys, fewer_values);
    let expected = pairs_map(keys, values).remove(gone);
    assert forall|k: K| fewer_keys.contains(k) implies after[k] == expected[k] by {
        let i = fewer_keys.index_of(k);
        let before = if i < at { i } else { i + 1 };
        lemma_pair(fewer_keys, fewer_values, i);
        lemma_pair(keys, values, before);
    }
}

} // verus!
