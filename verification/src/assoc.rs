//! Association lists keyed by strings: a `Vec` of `(String, V)` pairs in
//! which no key occurs twice, read as a `Map` from the key's characters.

use vstd::prelude::*;

verus! {

/// Some entry of `s` has key `k`.
pub open spec fn has_key<V>(s: Seq<(String, V)>, k: Seq<char>) -> bool {
    exists|i: int| 0 <= i < s.len() && (#[trigger] s[i]).0@ == k
}

/// An index at which `s` holds key `k`, where there is one.
pub open spec fn key_index<V>(s: Seq<(String, V)>, k: Seq<char>) -> int {
    choose|i: int| 0 <= i < s.len() && (#[trigger] s[i]).0@ == k
}

/// No key occurs twice in `s`.
pub open spec fn unique_keys<V>(s: Seq<(String, V)>) -> bool {
    forall|i: int, j: int|
        0 <= i < s.len() && 0 <= j < s.len() && i != j ==> (#[trigger] s[i]).0@ != (#[trigger] s[j]).0@
}

/// The map that `s` stands for: each key to the value stored with it.
pub open spec fn assoc_map<V>(s: Seq<(String, V)>) -> Map<Seq<char>, V> {
    Map::new(|k: Seq<char>| has_key(s, k), |k: Seq<char>| s[key_index(s, k)].1)
}

/// Where the keys are unique, the entry at `i` is the one its key maps to.
pub proof fn lemma_entry_at<V>(s: Seq<(String, V)>, i: int)
    requires
        unique_keys(s),
        0 <= i < s.len(),
    ensures
        has_key(s, s[i].0@),
        key_index(s, s[i].0@) == i,
        assoc_map(s).contains_key(s[i].0@),
        assoc_map(s)[s[i].0@] == s[i].1,
{
}

/// Appending an entry under a key that is not yet there inserts it.
pub proof fn lemma_push_fresh<V>(s: Seq<(String, V)>, key: String, value: V)
    requires
        unique_keys(s),
        !has_key(s, key@),
    ensures
        unique_keys(s.push((key, value))),
        assoc_map(s.push((key, value))) =~= assoc_map(s).insert(key@, value),
{
    let t = s.push((key, value));
    assert(unique_keys(t));
    assert forall|k: Seq<char>| has_key(t, k) <==> (has_key(s, k) || k == key@) by {
        if has_key(s, k) {
            assert(t[key_index(s, k)] == s[key_index(s, k)]);
        }
        if k == key@ {
            assert(t[s.len() as int].0@ == k);
        }
    }
    assert forall|k: Seq<char>| has_key(t, k) implies #[trigger] assoc_map(t)[k] == assoc_map(
        s,
    ).insert(key@, value)[k] by {
        let i = key_index(t, k);
        lemma_entry_at(t, i);
        if i < s.len() {
            lemma_entry_at(s, i);
        }
    }
}

/// Replacing the value stored at `i` re-inserts its key with the new value.
pub proof fn lemma_replace_at<V>(s: Seq<(String, V)>, i: int, key: String, value: V)
    requires
        unique_keys(s),
        0 <= i < s.len(),
        s[i].0@ == key@,
    ensures
        unique_keys(s.update(i, (key, value))),
        assoc_map(s.update(i, (key, value))) =~= assoc_map(s).insert(key@, value),
{
    let t = s.update(i, (key, value));
    assert(unique_keys(t));
    assert forall|k: Seq<char>| has_key(t, k) <==> has_key(s, k) by {
        if has_key(s, k) {
            assert(t[key_index(s, k)].0@ == s[key_index(s, k)].0@);
        }
    }
    assert forall|k: Seq<char>| has_key(t, k) implies #[trigger] assoc_map(t)[k] == assoc_map(
        s,
    ).insert(key@, value)[k] by {
        let a = key_index(t, k);
        lemma_entry_at(t, a);
        if a != i {
            lemma_entry_at(s, a);
        }
    }
}

/// The first index at which `entries` holds `key`, if it holds it.
pub fn position<V>(entries: &Vec<(String, V)>, key: &String) -> (r: Option<usize>)
    ensures
        match r {
            Some(i) => i < entries@.len() && entries@[i as int].0@ == key@ && forall|j: int|
                0 <= j < i ==> (#[trigger] entries@[j]).0@ != key@,
            None => !has_key(entries@, key@),
        },
{
    let mut i: usize = 0;
    while i < entries.len()
        invariant
            i <= entries@.len(),
            forall|j: int| 0 <= j < i ==> (#[trigger] entries@[j]).0@ != key@,
        decreases entries@.len() - i,
    {
        if entries[i].0 == *key {
            return Some(i);
        }
        i += 1;
    }
    None
}

/// Stores `value` under `key`, in place of what was stored under it before.
pub fn upsert<V>(entries: &mut Vec<(String, V)>, key: String, value: V)
    requires
        unique_keys(old(entries)@),
    ensures
        unique_keys(final(entries)@),
        assoc_map(final(entries)@) == assoc_map(old(entries)@).insert(key@, value),
        has_key(old(entries)@, key@) ==> final(entries)@ == old(entries)@.update(
            key_index(old(entries)@, key@),
            (key, value),
        ),
        !has_key(old(entries)@, key@) ==> final(entries)@ == old(entries)@.push((key, value)),
{
    match position(entries, &key) {
        Some(i) => {
            proof {
                lemma_replace_at(entries@, i as int, key, value);
                lemma_entry_at(entries@, i as int);
            }
            entries.set(i, (key, value));
        },
        None => {
            proof {
                lemma_push_fresh(entries@, key, value);
            }
            entries.push((key, value));
        },
    }
}

} // verus!
