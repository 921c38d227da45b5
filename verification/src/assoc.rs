//! Association lists as mathematical maps: a sequence of distinct keys beside
//! a sequence of values stands for the map that sends each key to the value
//! at the same index.

use vstd::prelude::*;

verus! {

/// No key occurs twice.
pub open spec fn distinct(keys: Seq<Seq<char>>) -> bool {
    forall|i: int, j: int| 0 <= i < j < keys.len() ==> keys[i] != keys[j]
}

/// An index at which `k` stands in `keys`.
pub open spec fn index_of(keys: Seq<Seq<char>>, k: Seq<char>) -> int {
    choose|i: int| 0 <= i < keys.len() && keys[i] == k
}

/// The map from each key to the value at the key's index.
pub open spec fn assoc<V>(keys: Seq<Seq<char>>, vals: Seq<V>) -> Map<Seq<char>, V> {
    Map::new(|k: Seq<char>| keys.contains(k), |k: Seq<char>| vals[index_of(keys, k)])
}

/// With distinct keys, the key at index `i` is mapped to the value at `i`.
pub proof fn lemma_assoc_at<V>(keys: Seq<Seq<char>>, vals: Seq<V>, i: int)
    requires
        distinct(keys),
        0 <= i < keys.len(),
    ensures
        keys.contains(keys[i]),
        index_of(keys, keys[i]) == i,
        assoc(keys, vals).contains_key(keys[i]),
        assoc(keys, vals)[keys[i]] == vals[i],
{
    assert(keys.contains(keys[i]));
    let j = index_of(keys, keys[i]);
    if j < i {
    } else if i < j {
    }
}

/// Appending a key that is new, with its value, inserts the pair.
pub proof fn lemma_assoc_push<V>(keys: Seq<Seq<char>>, vals: Seq<V>, k: Seq<char>, v: V)
    requires
        distinct(keys),
        keys.len() == vals.len(),
        !keys.contains(k),
    ensures
        distinct(keys.push(k)),
        assoc(keys.push(k), vals.push(v)) =~= assoc(keys, vals).insert(k, v),
{
    let keys2 = keys.push(k);
    let vals2 = vals.push(v);
    assert forall|i: int, j: int| 0 <= i < j < keys2.len() implies keys2[i] != keys2[j] by {
        if j == keys.len() {
            if keys2[i] == k {
                assert(keys[i] == k);
                assert(keys.contains(k));
            }
        } else {
            assert(keys2[i] == keys[i] && keys2[j] == keys[j]);
        }
    }
    assert forall|x: Seq<char>| keys2.contains(x) <==> (keys.contains(x) || x == k) by {
        if keys2.contains(x) {
            let i = choose|i: int| 0 <= i < keys2.len() && keys2[i] == x;
            if i < keys.len() {
                assert(keys[i] == x);
            }
        }
        if keys.contains(x) {
            let i = choose|i: int| 0 <= i < keys.len() && keys[i] == x;
            assert(keys2[i] == x);
        }
        if x == k {
            assert(keys2[keys.len() as int] == x);
        }
    }
    assert forall|x: Seq<char>| keys2.contains(x) implies #[trigger] assoc(keys2, vals2)[x]
        == assoc(keys, vals).insert(k, v)[x] by {
        let i = index_of(keys2, x);
        lemma_assoc_at(keys2, vals2, i);
        if i < keys.len() {
            assert(keys[i] == x);
            lemma_assoc_at(keys, vals, i);
        }
    }
}

/// Replacing the value at index `i` re-inserts the key at `i` with the new
/// value.
pub proof fn lemma_assoc_update<V>(keys: Seq<Seq<char>>, vals: Seq<V>, i: int, v: V)
    requires
        distinct(keys),
        keys.len() == vals.len(),
        0 <= i < keys.len(),
    ensures
        assoc(keys, vals.update(i, v)) =~= assoc(keys, vals).insert(keys[i], v),
{
    lemma_assoc_at(keys, vals, i);
    assert forall|x: Seq<char>| keys.contains(x) implies #[trigger] assoc(keys, vals.update(i, v))[x]
        == assoc(keys, vals).insert(keys[i], v)[x] by {
        let j = index_of(keys, x);
        lemma_assoc_at(keys, vals, j);
    }
}

/// With distinct keys, the map has as many keys as the list has entries.
pub proof fn lemma_assoc_len<V>(keys: Seq<Seq<char>>, vals: Seq<V>)
    requires
        distinct(keys),
        keys.len() == vals.len(),
    ensures
        assoc(keys, vals).dom().finite(),
        assoc(keys, vals).dom().len() == keys.len(),
    decreases keys.len(),
{
    if keys.len() == 0 {
        assert(assoc(keys, vals).dom() =~= Set::empty());
    } else {
        let k = keys.last();
        let v = vals.last();
        let keys0 = keys.drop_last();
        let vals0 = vals.drop_last();
        assert(keys0.push(k) =~= keys);
        assert(vals0.push(v) =~= vals);
        if keys0.contains(k) {
            let i = choose|i: int| 0 <= i < keys0.len() && keys0[i] == k;
            assert(keys[i] == keys[keys.len() - 1]);
        }
        assert forall|i: int, j: int| 0 <= i < j < keys0.len() implies keys0[i] != keys0[j] by {
            assert(keys0[i] == keys[i] && keys0[j] == keys[j]);
        }
        lemma_assoc_len(keys0, vals0);
        lemma_assoc_push(keys0, vals0, k, v);
        assert(assoc(keys, vals).dom() =~= assoc(keys0, vals0).dom().insert(k));
    }
}

} // verus!
