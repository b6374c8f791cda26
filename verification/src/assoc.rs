//! Association lists: keyed entries in insertion order, searched from the front.
//!
//! The header lists and the routing table are both kept in this form, so
//! that what they hold has an order that does not depend on any hashing.

use vstd::prelude::*;

verus! {

/// The first position at or after `from` whose entry has the key `key`, or
/// the length of `entries` where there is none.
pub open spec fn first_key<K, V>(entries: Seq<(K, V)>, key: K, from: int) -> int
    decreases entries.len() - from,
{
    if from >= entries.len() {
        entries.len() as int
    } else if entries[from].0 == key {
        from
    } else {
        first_key(entries, key, from + 1)
    }
}

/// Whether an entry with the key `key` is in the list.
pub open spec fn has_key<K, V>(entries: Seq<(K, V)>, key: K) -> bool {
    first_key(entries, key, 0) < entries.len()
}

/// The value of the first entry with the key `key`.
pub open spec fn lookup<K, V>(entries: Seq<(K, V)>, key: K) -> Option<V> {
    if has_key(entries, key) {
        Some(entries[first_key(entries, key, 0)].1)
    } else {
        None
    }
}

/// The list after `key` is given `value`, whether or not it had one: the
/// last write wins. An entry that is replaced keeps its position.
pub open spec fn with_last<K, V>(entries: Seq<(K, V)>, key: K, value: V) -> Seq<(K, V)> {
    if has_key(entries, key) {
        entries.update(first_key(entries, key, 0), (key, value))
    } else {
        entries.push((key, value))
    }
}

/// The list after `key` is given `value` unless it already had one: the
/// first write wins.
pub open spec fn with_first<K, V>(entries: Seq<(K, V)>, key: K, value: V) -> Seq<(K, V)> {
    if has_key(entries, key) {
        entries
    } else {
        entries.push((key, value))
    }
}

/// No key occurs twice.
pub open spec fn unique_keys<K, V>(entries: Seq<(K, V)>) -> bool {
    forall|i: int, j: int|
        0 <= i < j < entries.len() ==> (#[trigger] entries[i]).0 != (#[trigger] entries[j]).0
}

/// The list as a mapping from keys to values.
pub open spec fn as_map<K, V>(entries: Seq<(K, V)>) -> Map<K, V> {
    Map::new(|key: K| has_key(entries, key), |key: K| entries[first_key(entries, key, 0)].1)
}

/// `first_key` is the least position at or after `from` that has the key.
pub proof fn lemma_first_key<K, V>(entries: Seq<(K, V)>, key: K, from: int)
    requires
        0 <= from <= entries.len(),
    ensures
        from <= first_key(entries, key, from) <= entries.len(),
        first_key(entries, key, from) < entries.len() ==> entries[first_key(
            entries,
            key,
            from,
        )].0 == key,
        forall|j: int| from <= j < first_key(entries, key, from) ==> (#[trigger] entries[j]).0 != key,
    decreases entries.len() - from,
{
    if from < entries.len() && entries[from].0 != key {
        lemma_first_key(entries, key, from + 1);
    }
}

/// What one key means after a write with `with_last`.
pub proof fn lemma_with_last_at<K, V>(entries: Seq<(K, V)>, key: K, value: V, other: K)
    ensures
        has_key(with_last(entries, key, value), other) == (other == key || has_key(entries, other)),
        lookup(with_last(entries, key, value), other) == if other == key {
            Some(value)
        } else {
            lookup(entries, other)
        },
{
    let after = with_last(entries, key, value);
    lemma_first_key(entries, key, 0);
    lemma_first_key(entries, other, 0);
    lemma_first_key(after, other, 0);
    let at = first_key(entries, key, 0);
    let a = first_key(entries, other, 0);
    let b = first_key(after, other, 0);
    assert(after[at].0 == key);
    if other == key {
        if b < at {
            assert(after[b].0 == entries[b].0);
        }
    } else if a < entries.len() {
        assert(after[a].0 == other);
        if b < a {
            assert(after[b].0 == entries[b].0);
        }
    } else if b < after.len() {
        if b < entries.len() {
            assert(after[b].0 == entries[b].0 || after[b].0 == key);
        }
    }
}

/// Writing with `with_last` is insertion into the mapping and keeps keys unique.
pub proof fn lemma_with_last<K, V>(entries: Seq<(K, V)>, key: K, value: V)
    ensures
        as_map(with_last(entries, key, value)) == as_map(entries).insert(key, value),
        unique_keys(entries) ==> unique_keys(with_last(entries, key, value)),
{
    let after = with_last(entries, key, value);
    lemma_first_key(entries, key, 0);
    let at = first_key(entries, key, 0);
    assert forall|other: K| #[trigger]
        has_key(after, other) == (other == key || has_key(entries, other)) && lookup(after, other)
            == (if other == key {
            Some(value)
        } else {
            lookup(entries, other)
        }) by {
        lemma_with_last_at(entries, key, value, other);
    }
    assert(as_map(after) =~= as_map(entries).insert(key, value));
    if unique_keys(entries) {
        assert forall|i: int, j: int| 0 <= i < j < after.len() implies (#[trigger] after[i]).0 != (
        #[trigger] after[j]).0 by {
            if has_key(entries, key) {
                if i == at {
                    assert(entries[i].0 == key);
                    assert(after[j] == entries[j]);
                } else if j == at {
                    assert(entries[j].0 == key);
                    assert(after[i] == entries[i]);
                } else {
                    assert(after[i] == entries[i] && after[j] == entries[j]);
                }
            } else {
                if j < entries.len() {
                    assert(after[i] == entries[i] && after[j] == entries[j]);
                } else {
                    assert(after[i] == entries[i]);
                }
            }
        }
    }
}

/// Writing with `with_first` never changes a value that is already there
/// and keeps keys unique.
pub proof fn lemma_with_first<K, V>(entries: Seq<(K, V)>, key: K, value: V)
    ensures
        as_map(with_first(entries, key, value)) == if has_key(entries, key) {
            as_map(entries)
        } else {
            as_map(entries).insert(key, value)
        },
        lookup(with_first(entries, key, value), key) == if has_key(entries, key) {
            lookup(entries, key)
        } else {
            Some(value)
        },
        unique_keys(entries) ==> unique_keys(with_first(entries, key, value)),
{
    if !has_key(entries, key) {
        assert(with_first(entries, key, value) == with_last(entries, key, value));
        lemma_with_last(entries, key, value);
        lemma_with_last_at(entries, key, value, key);
    }
}

} // verus!
