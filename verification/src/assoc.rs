//! Association lists keyed by text: the shape of JSON objects, of entity
//! properties and of variable scopes.
//!
//! A key may occur more than once; the last occurrence is the one that counts.

use crate::text::str_eq;
use vstd::prelude::*;

verus! {

/// The position of the last occurrence of `key` in `keys`, or -1.
pub open spec fn last_index(keys: Seq<Seq<char>>, key: Seq<char>) -> int
    decreases keys.len(),
{
    if keys.len() == 0 {
        -1
    } else if keys.last() == key {
        keys.len() - 1
    } else {
        last_index(keys.drop_last(), key)
    }
}

/// The keys of an executable association list.
pub open spec fn keys_of<V>(pairs: Seq<(String, V)>) -> Seq<Seq<char>> {
    Seq::new(pairs.len(), |i: int| pairs[i].0@)
}

/// The keys of an association list of views.
pub open spec fn view_keys<V>(pairs: Seq<(Seq<char>, V)>) -> Seq<Seq<char>> {
    Seq::new(pairs.len(), |i: int| pairs[i].0)
}

/// The value bound to `key`, if any.
pub open spec fn lookup<V>(pairs: Seq<(Seq<char>, V)>, key: Seq<char>) -> Option<V> {
    let i = last_index(view_keys(pairs), key);
    if i >= 0 {
        Some(pairs[i].1)
    } else {
        None
    }
}

/// The list with `key` bound to `value`: in place where `key` was bound,
/// else at the end.
pub open spec fn with_entry<V>(pairs: Seq<(Seq<char>, V)>, key: Seq<char>, value: V) -> Seq<
    (Seq<char>, V),
> {
    let i = last_index(view_keys(pairs), key);
    if i >= 0 {
        pairs.update(i, (key, value))
    } else {
        pairs.push((key, value))
    }
}

/// `last_index` is the greatest position that holds the key.
pub proof fn lemma_last_index(keys: Seq<Seq<char>>, key: Seq<char>)
    ensures
        -1 <= last_index(keys, key) < keys.len(),
        last_index(keys, key) >= 0 ==> keys[last_index(keys, key)] == key,
        forall|j: int| last_index(keys, key) < j < keys.len() ==> keys[j] != key,
    decreases keys.len(),
{
    if keys.len() > 0 && keys.last() != key {
        let rest = keys.drop_last();
        lemma_last_index(rest, key);
        assert forall|j: int| last_index(keys, key) < j < keys.len() implies keys[j] != key by {
            if j < rest.len() {
                assert(rest[j] == keys[j]);
            }
        }
    }
}

/// A position that holds the key, with none after it, is the `last_index`.
pub proof fn lemma_last_index_is(keys: Seq<Seq<char>>, key: Seq<char>, i: int)
    requires
        -1 <= i < keys.len(),
        i >= 0 ==> keys[i] == key,
        forall|j: int| i < j < keys.len() ==> keys[j] != key,
    ensures
        last_index(keys, key) == i,
{
    lemma_last_index(keys, key);
}

/// Binding a key makes it found with the new value and leaves every other
/// key as it was.
pub proof fn lemma_with_entry<V>(pairs: Seq<(Seq<char>, V)>, key: Seq<char>, value: V, other: Seq<char>)
    ensures
        lookup(with_entry(pairs, key, value), key) == Some(value),
        other != key ==> lookup(with_entry(pairs, key, value), other) == lookup(pairs, other),
{
    let keys = view_keys(pairs);
    let i = last_index(keys, key);
    let after = with_entry(pairs, key, value);
    lemma_last_index(keys, key);
    lemma_last_index(keys, other);
    if i >= 0 {
        assert(view_keys(after) =~= keys);
    } else {
        assert(view_keys(after) =~= keys.push(key));
        assert(keys.push(key).drop_last() =~= keys);
        let o = last_index(keys, other);
        if other != key {
            lemma_last_index_is(keys.push(key), other, o);
        }
    }
}

/// The position of the last pair of `pairs` whose key is `key`.
pub fn find<V>(pairs: &Vec<(String, V)>, key: &str) -> (r: Option<usize>)
    ensures
        match r {
            Some(i) => i == last_index(keys_of(pairs@), key@),
            None => last_index(keys_of(pairs@), key@) == -1,
        },
        r matches Some(i) ==> i < pairs.len() && pairs@[i as int].0@ == key@,
{
    let mut i: usize = pairs.len();
    while i > 0
        invariant
            i <= pairs.len(),
            forall|j: int| i <= j < pairs.len() ==> pairs@[j].0@ != key@,
        decreases i,
    {
        i -= 1;
        if str_eq(pairs[i].0.as_str(), key) {
            proof {
                lemma_last_index_is(keys_of(pairs@), key@, i as int);
            }
            return Some(i);
        }
    }
    proof {
        lemma_last_index_is(keys_of(pairs@), key@, -1);
    }
    None
}

} // verus!
