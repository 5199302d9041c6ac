//! Maps that are kept as a list of keys and a list of values of the same
//! length, without a key twice.
use crate::text::{same_text, texts};
use vstd::prelude::*;

verus! {

/// The place of `key` among `keys`.
pub open spec fn place_of<K>(keys: Seq<K>, key: K) -> int {
    choose|i: int| 0 <= i < keys.len() && keys[i] == key
}

/// The map from each of `keys` to the value at its place.
pub open spec fn map_of<K, V>(keys: Seq<K>, values: Seq<V>) -> Map<K, V> {
    Map::new(|k: K| keys.contains(k), |k: K| values[place_of(keys, k)])
}

/// A key stands at one place only.
pub proof fn lemma_place<K>(keys: Seq<K>, i: int)
    requires
        keys.no_duplicates(),
        0 <= i < keys.len(),
    ensures
        keys.contains(keys[i]),
        place_of(keys, keys[i]) == i,
{
}

/// The map of an empty list is empty.
pub proof fn lemma_map_of_empty<K, V>(keys: Seq<K>, values: Seq<V>)
    requires
        keys.len() == 0,
    ensures
        map_of(keys, values) == Map::<K, V>::empty(),
{
    assert(map_of(keys, values) =~= Map::<K, V>::empty());
}

/// The value at the place of a key is what the map has for the key.
pub proof fn lemma_map_of_at<K, V>(keys: Seq<K>, values: Seq<V>, i: int)
    requires
        keys.no_duplicates(),
        keys.len() == values.len(),
        0 <= i < keys.len(),
    ensures
        map_of(keys, values).contains_key(keys[i]),
        map_of(keys, values)[keys[i]] == values[i],
{
    lemma_place(keys, i);
}

/// A new key with its value at the end is an insertion.
pub proof fn lemma_map_of_push<K, V>(keys: Seq<K>, values: Seq<V>, key: K, value: V)
    requires
        keys.no_duplicates(),
        keys.len() == values.len(),
        !keys.contains(key),
    ensures
        keys.push(key).no_duplicates(),
        map_of(keys.push(key), values.push(value)) == map_of(keys, values).insert(key, value),
{
    let keys2 = keys.push(key);
    let values2 = values.push(value);
    assert(keys2.no_duplicates()) by {
        assert forall|i: int, j: int| 0 <= i < keys2.len() && 0 <= j < keys2.len() && i != j
            implies keys2[i] != keys2[j] by {
            if i < keys.len() && j < keys.len() {
                assert(keys[i] != keys[j]);
            } else if i < keys.len() {
                assert(keys.contains(keys[i]));
            } else {
                assert(keys.contains(keys[j]));
            }
        }
    }
    assert forall|k: K| #[trigger]
        map_of(keys2, values2).contains_key(k) == map_of(keys, values).insert(
            key,
            value,
        ).contains_key(k) by {
        if keys.contains(k) {
            let i = place_of(keys, k);
            assert(keys2[i] == k);
        }
        if keys2.contains(k) {
            let i = place_of(keys2, k);
            if i < keys.len() {
                assert(keys[i] == k);
            }
        }
        if k == key {
            assert(keys2[keys.len() as int] == key);
        }
    }
    assert forall|k: K| #[trigger] map_of(keys2, values2).contains_key(k) implies map_of(
        keys2,
        values2,
    )[k] == map_of(keys, values).insert(key, value)[k] by {
        let i = place_of(keys2, k);
        lemma_place(keys2, i);
        if i < keys.len() {
            assert(keys[i] == k);
            lemma_place(keys, i);
        }
    }
    assert(map_of(keys2, values2) =~= map_of(keys, values).insert(key, value));
}

/// A new value at the place of a key is an insertion under that key.
pub proof fn lemma_map_of_update<K, V>(keys: Seq<K>, values: Seq<V>, i: int, value: V)
    requires
        keys.no_duplicates(),
        keys.len() == values.len(),
        0 <= i < keys.len(),
    ensures
        map_of(keys, values.update(i, value)) == map_of(keys, values).insert(keys[i], value),
{
    let values2 = values.update(i, value);
    lemma_place(keys, i);
    assert forall|k: K| #[trigger] map_of(keys, values2).contains_key(k) implies map_of(
        keys,
        values2,
    )[k] == map_of(keys, values).insert(keys[i], value)[k] by {
        let j = place_of(keys, k);
        lemma_place(keys, j);
    }
    assert(map_of(keys, values2) =~= map_of(keys, values).insert(keys[i], value));
}

/// Taking a key and its value out is a removal of that key.
pub proof fn lemma_map_of_remove<K, V>(keys: Seq<K>, values: Seq<V>, i: int)
    requires
        keys.no_duplicates(),
        keys.len() == values.len(),
        0 <= i < keys.len(),
    ensures
        keys.remove(i).no_duplicates(),
        map_of(keys.remove(i), values.remove(i)) == map_of(keys, values).remove(keys[i]),
{
    let keys2 = keys.remove(i);
    let values2 = values.remove(i);
    assert forall|a: int, b: int| 0 <= a < keys2.len() && 0 <= b < keys2.len() && a != b
        implies keys2[a] != keys2[b] by {
        let a0 = if a < i {
            a
        } else {
            a + 1
        };
        let b0 = if b < i {
            b
        } else {
            b + 1
        };
        assert(keys2[a] == keys[a0]);
        assert(keys2[b] == keys[b0]);
    }
    assert forall|k: K| #[trigger]
        map_of(keys2, values2).contains_key(k) == map_of(keys, values).remove(
            keys[i],
        ).contains_key(k) by {
        if keys2.contains(k) {
            let a = place_of(keys2, k);
            let a0 = if a < i {
                a
            } else {
                a + 1
            };
            assert(keys[a0] == k);
        }
        if keys.contains(k) && k != keys[i] {
            let j = place_of(keys, k);
            let j2 = if j < i {
                j
            } else {
                j - 1
            };
            assert(keys2[j2] == k);
        }
    }
    assert forall|k: K| #[trigger] map_of(keys2, values2).contains_key(k) implies map_of(
        keys2,
        values2,
    )[k] == map_of(keys, values).remove(keys[i])[k] by {
        let a = place_of(keys2, k);
        lemma_place(keys2, a);
        let a0 = if a < i {
            a
        } else {
            a + 1
        };
        assert(keys[a0] == k);
        lemma_place(keys, a0);
    }
    assert(map_of(keys2, values2) =~= map_of(keys, values).remove(keys[i]));
}

/// The keys of the map are the keys of the list.
pub proof fn lemma_map_of_dom<K, V>(keys: Seq<K>, values: Seq<V>)
    ensures
        map_of(keys, values).dom() == keys.to_set(),
{
    assert(map_of(keys, values).dom() =~= keys.to_set());
}

/// The place of `key` among `keys`.
pub fn find_key(keys: &Vec<String>, key: &str) -> (r: Option<usize>)
    ensures
        match r {
            Some(i) => i < keys.len() && keys@[i as int]@ == key@,
            None => !texts(keys@).contains(key@),
        },
{
    let mut i: usize = 0;
    while i < keys.len()
        invariant
            i <= keys.len(),
            forall|j: int| 0 <= j < i ==> (#[trigger] texts(keys@)[j]) != key@,
        decreases keys.len() - i,
    {
        assert(texts(keys@)[i as int] == keys@[i as int]@);
        if same_text(keys[i].as_str(), key) {
            return Some(i);
        }
        i += 1;
    }
    None
}

} // verus!
