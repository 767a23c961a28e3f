//! Tables with text keys, kept as lists of entries.

use vstd::prelude::*;

verus! {

/// The keys of a table, in the order of its entries.
pub open spec fn keys_of<V>(entries: Seq<(String, V)>) -> Seq<Seq<char>> {
    entries.map_values(|e: (String, V)| e.0@)
}

/// No key has two entries.
pub open spec fn distinct_keys<V>(entries: Seq<(String, V)>) -> bool {
    keys_of(entries).no_duplicates()
}

/// Entry `i` is the first under a key.
pub open spec fn first_under<V>(entries: Seq<(String, V)>, key: Seq<char>, i: int) -> bool {
    &&& 0 <= i < entries.len()
    &&& entries[i].0@ == key
    &&& forall|j: int| 0 <= j < i ==> (#[trigger] entries[j]).0@ != key
}

/// A table as a map.
pub open spec fn as_map<V>(entries: Seq<(String, V)>) -> Map<Seq<char>, V> {
    Map::new(
        |key: Seq<char>| keys_of(entries).contains(key),
        |key: Seq<char>| entries[choose|i: int| first_under(entries, key, i)].1,
    )
}

/// A key that has an entry has a first one.
pub proof fn lemma_has_first<V>(entries: Seq<(String, V)>, key: Seq<char>, k: int) -> (i: int)
    requires
        0 <= k < entries.len(),
        entries[k].0@ == key,
    ensures
        first_under(entries, key, i),
    decreases k,
{
    if exists|j: int| 0 <= j < k && (#[trigger] entries[j]).0@ == key {
        let j = choose|j: int| 0 <= j < k && (#[trigger] entries[j]).0@ == key;
        lemma_has_first(entries, key, j)
    } else {
        k
    }
}

/// The first entry under a key.
pub fn find_key<V>(entries: &Vec<(String, V)>, key: &str) -> (r: Option<usize>)
    ensures
        match r {
            Some(i) => first_under(entries@, key@, i as int) && as_map(entries@).contains_key(key@)
                && as_map(entries@)[key@] == entries@[i as int].1,
            None => !as_map(entries@).contains_key(key@),
        },
{
    let wanted: String = key.to_owned();
    for i in 0..entries.len()
        invariant
            wanted@ == key@,
            forall|j: int| 0 <= j < i ==> (#[trigger] entries@[j]).0@ != key@,
    {
        if entries[i].0 == wanted {
            proof {
                assert(keys_of(entries@)[i as int] == key@);
                assert(first_under(entries@, key@, i as int));
            }
            return Some(i);
        }
    }
    assert forall|j: int| 0 <= j < entries@.len() implies keys_of(entries@)[j] != key@ by {
        assert(entries@[j].0@ != key@);
    }
    None
}

/// In a table without double keys, every entry is what the map holds under its
/// key, and the map holds nothing else.
pub proof fn law_table_is_a_map<V>(entries: Seq<(String, V)>)
    requires
        distinct_keys(entries),
    ensures
        forall|i: int|
            0 <= i < entries.len() ==> as_map(entries).contains_key((#[trigger] entries[i]).0@)
                && as_map(entries)[entries[i].0@] == entries[i].1,
        forall|key: Seq<char>| #[trigger]
            as_map(entries).contains_key(key) ==> exists|i: int|
                0 <= i < entries.len() && (#[trigger] entries[i]).0@ == key,
{
    let keys = keys_of(entries);
    assert forall|i: int| 0 <= i < entries.len() implies as_map(entries).contains_key(
        (#[trigger] entries[i]).0@,
    ) && as_map(entries)[entries[i].0@] == entries[i].1 by {
        let key = entries[i].0@;
        assert(keys[i] == key);
        assert forall|j: int| 0 <= j < i implies (#[trigger] entries[j]).0@ != key by {
            assert(keys[j] != keys[i]);
        }
        assert(first_under(entries, key, i));
        let c = choose|c: int| first_under(entries, key, c);
        assert(keys[c] == keys[i]);
    }
    assert forall|key: Seq<char>| #[trigger] as_map(entries).contains_key(key) implies exists|
        i: int,
    | 0 <= i < entries.len() && (#[trigger] entries[i]).0@ == key by {
        let i = choose|i: int| 0 <= i < keys.len() && keys[i] == key;
        assert(entries[i].0@ == key);
    }
}

/// A table answers a key with its first entry under it, and no other.
pub proof fn law_the_first_entry_answers<V>(entries: Seq<(String, V)>, key: Seq<char>, i: int)
    requires
        0 <= i < entries.len(),
    ensures
        keys_of(entries).len() == entries.len(),
        keys_of(entries)[i] == entries[i].0@,
        as_map(entries).contains_key(key) ==> exists|k: int|
            0 <= k < entries.len() && (#[trigger] entries[k]).0@ == key,
        entries[i].0@ == key && (forall|k: int|
            0 <= k < i ==> (#[trigger] entries[k]).0@ != key) ==> as_map(entries).contains_key(key)
            && as_map(entries)[key] == entries[i].1 && first_under(entries, key, i),
        first_under(entries, key, i) ==> entries[i].0@ == key && forall|k: int|
            0 <= k < i ==> (#[trigger] entries[k]).0@ != key,
{
    let keys = keys_of(entries);
    if keys.contains(key) {
        let k = choose|k: int| 0 <= k < keys.len() && keys[k] == key;
        assert(entries[k].0@ == key);
    }
    if first_under(entries, key, i) {
        assert(keys[i] == key);
        let c = choose|c: int| first_under(entries, key, c);
        if c < i {
            assert(entries[c].0@ != key);
        }
        if i < c {
            assert(entries[i].0@ != key);
        }
    }
}

} // verus!
