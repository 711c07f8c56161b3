//! Association lists keyed by text: the ordered stand-in for a string-keyed map.
//! An entry is found by the first key that holds the same characters.

use vstd::prelude::*;
use vstd::string::*;
use crate::util::str_eq;

verus! {

/// The view of an optional text.
pub open spec fn opt_text(o: Option<String>) -> Option<Seq<char>> {
    match o {
        Some(s) => Some(s@),
        None => None,
    }
}

/// The keys of an association list, in order.
pub open spec fn keys<V>(entries: Seq<(String, V)>) -> Seq<Seq<char>> {
    Seq::new(entries.len(), |i: int| entries[i].0@)
}

/// The views of a list of texts.
pub open spec fn texts(names: Seq<String>) -> Seq<Seq<char>> {
    Seq::new(names.len(), |i: int| names[i]@)
}

/// The index of the first occurrence of `key`, or `keys.len()` where there is
/// none.
pub open spec fn find(keys: Seq<Seq<char>>, key: Seq<char>) -> int
    decreases keys.len(),
{
    if keys.len() == 0 {
        0
    } else if keys[0] == key {
        0
    } else {
        1 + find(keys.drop_first(), key)
    }
}

/// Whether `key` occurs among `keys`.
pub open spec fn occurs(keys: Seq<Seq<char>>, key: Seq<char>) -> bool {
    find(keys, key) < keys.len()
}

/// `find` returns the least index that holds the key.
pub proof fn lemma_find(keys: Seq<Seq<char>>, key: Seq<char>)
    ensures
        0 <= find(keys, key) <= keys.len(),
        find(keys, key) < keys.len() ==> keys[find(keys, key)] == key,
        forall|j: int| 0 <= j < find(keys, key) ==> keys[j] != key,
    decreases keys.len(),
{
    if keys.len() > 0 && keys[0] != key {
        let rest = keys.drop_first();
        lemma_find(rest, key);
        assert forall|j: int| 0 <= j < find(keys, key) implies keys[j] != key by {
            if j > 0 {
                assert(rest[j - 1] == keys[j]);
            }
        }
    }
}

/// An index that holds the key, with no earlier one that does, is what `find`
/// returns; where no index holds it, `find` returns the length.
pub proof fn lemma_find_is(keys: Seq<Seq<char>>, key: Seq<char>, i: int)
    requires
        0 <= i <= keys.len(),
        i < keys.len() ==> keys[i] == key,
        forall|j: int| 0 <= j < i ==> keys[j] != key,
    ensures
        find(keys, key) == i,
{
    lemma_find(keys, key);
}

/// The index of the first entry under `key`, or the list's length where there
/// is none.
pub fn position<V>(entries: &Vec<(String, V)>, key: &str) -> (i: usize)
    ensures
        i == find(keys(entries@), key@),
        i <= entries.len(),
        i < entries.len() ==> entries@[i as int].0@ == key@,
{
    let mut i: usize = 0;
    while i < entries.len()
        invariant
            i <= entries.len(),
            forall|j: int| 0 <= j < i ==> keys(entries@)[j] != key@,
        decreases entries.len() - i,
    {
        if str_eq(entries[i].0.as_str(), key) {
            proof {
                lemma_find_is(keys(entries@), key@, i as int);
            }
            return i;
        }
        i += 1;
    }
    proof {
        lemma_find_is(keys(entries@), key@, i as int);
    }
    i
}

/// The index of the first text equal to `key`, or the list's length where there
/// is none.
pub fn position_text(names: &Vec<String>, key: &str) -> (i: usize)
    ensures
        i == find(texts(names@), key@),
        i <= names.len(),
        i < names.len() ==> names@[i as int]@ == key@,
{
    let mut i: usize = 0;
    while i < names.len()
        invariant
            i <= names.len(),
            forall|j: int| 0 <= j < i ==> texts(names@)[j] != key@,
        decreases names.len() - i,
    {
        if str_eq(names[i].as_str(), key) {
            proof {
                lemma_find_is(texts(names@), key@, i as int);
            }
            return i;
        }
        i += 1;
    }
    proof {
        lemma_find_is(texts(names@), key@, i as int);
    }
    i
}

/// A copy of an optional text.
pub fn clone_opt(o: &Option<String>) -> (r: Option<String>)
    ensures
        opt_text(r) == opt_text(*o),
        r == *o,
{
    match o {
        Some(s) => Some(s.clone()),
        None => None,
    }
}

} // verus!
