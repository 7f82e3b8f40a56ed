//! Finite maps held as two parallel sequences, one of keys and one of values.
//!
//! The executable tables of this crate are vectors searched front to back. The
//! definitions here give such a vector its meaning as a map and state how the
//! map changes when the vector does.

use vstd::prelude::*;

verus! {

/// An index at which `key` stands in `keys`, if it stands there at all.
pub open spec fn index_of<K>(keys: Seq<K>, key: K) -> int {
    choose|i: int| 0 <= i < keys.len() && keys[i] == key
}

/// The map that sends each key of `keys` to the value at the same index of
/// `values`.
pub open spec fn table<K, V>(keys: Seq<K>, values: Seq<V>) -> Map<K, V> {
    Map::new(|k: K| keys.contains(k), |k: K| values[index_of(keys, k)])
}

/// Where no key occurs twice, the key at index `i` is found at index `i`.
pub proof fn lemma_index_of<K>(keys: Seq<K>, i: int)
    requires
        keys.no_duplicates(),
        0 <= i < keys.len(),
    ensures
        keys.contains(keys[i]),
        index_of(keys, keys[i]) == i,
{
}

/// A key that is present is found at an index that holds it.
pub proof fn lemma_index_of_present<K>(keys: Seq<K>, key: K)
    requires
        keys.contains(key),
    ensures
        0 <= index_of(keys, key) < keys.len(),
        keys[index_of(keys, key)] == key,
{
}

/// Reading the table at the key of index `i` gives the value of index `i`.
pub proof fn lemma_table_get<K, V>(keys: Seq<K>, values: Seq<V>, i: int)
    requires
        keys.no_duplicates(),
        keys.len() == values.len(),
        0 <= i < keys.len(),
    ensures
        table(keys, values).dom().contains(keys[i]),
        table(keys, values)[keys[i]] == values[i],
{
    lemma_index_of(keys, i);
}

/// Replacing the value at index `i` is an insertion under the key at `i`.
pub proof fn lemma_table_update<K, V>(keys: Seq<K>, values: Seq<V>, i: int, v: V)
    requires
        keys.no_duplicates(),
        keys.len() == values.len(),
        0 <= i < keys.len(),
    ensures
        table(keys, values.update(i, v)) == table(keys, values).insert(keys[i], v),
{
    let before = table(keys, values);
    let after = table(keys, values.update(i, v));
    assert forall|k: K| after.dom().contains(k) implies #[trigger] after[k] == before.insert(
        keys[i],
        v,
    )[k] by {
        lemma_index_of_present(keys, k);
        lemma_index_of(keys, i);
    }
    assert(before.insert(keys[i], v).dom() =~= after.dom());
    assert(after =~= before.insert(keys[i], v));
}

/// Appending a key that is not yet present, with its value, is an insertion.
pub proof fn lemma_table_push<K, V>(keys: Seq<K>, values: Seq<V>, key: K, v: V)
    requires
        keys.no_duplicates(),
        keys.len() == values.len(),
        !keys.contains(key),
    ensures
        keys.push(key).no_duplicates(),
        table(keys.push(key), values.push(v)) == table(keys, values).insert(key, v),
{
    let keys2 = keys.push(key);
    let values2 = values.push(v);
    let before = table(keys, values);
    let after = table(keys2, values2);
    assert(keys2.no_duplicates());
    assert forall|k: K| after.dom().contains(k) <==> before.insert(key, v).dom().contains(k) by {
        if keys2.contains(k) {
            let j = choose|j: int| 0 <= j < keys2.len() && keys2[j] == k;
            if j < keys.len() {
                assert(keys[j] == k);
            }
        }
        if keys.contains(k) {
            let j = choose|j: int| 0 <= j < keys.len() && keys[j] == k;
            assert(keys2[j] == k);
        }
        if k == key {
            assert(keys2[keys.len() as int] == k);
        }
    }
    assert forall|k: K| after.dom().contains(k) implies #[trigger] after[k] == before.insert(
        key,
        v,
    )[k] by {
        lemma_index_of_present(keys2, k);
        let j = index_of(keys2, k);
        if j < keys.len() {
            assert(keys[j] == k);
            lemma_index_of(keys, j);
        } else {
            lemma_index_of(keys2, keys.len() as int);
        }
    }
    assert(before.insert(key, v).dom() =~= after.dom());
    assert(after =~= before.insert(key, v));
}

} // verus!
