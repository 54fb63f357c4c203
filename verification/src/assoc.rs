//! Name-keyed association lists.
//!
//! Every mapping in the engine — registry entries, history rows, tick files,
//! a connection's store handles — is a vector of `(String, value)` pairs with
//! pairwise-distinct keys, abstracted in contracts as a `Map` from key
//! characters to the value's view.

use vstd::prelude::*;

verus! {

/// No two entries share a key, comparing by character content.
pub open spec fn keys_unique<V>(s: Seq<(String, V)>) -> bool {
    forall|i: int, j: int| 0 <= i < j < s.len() ==> s[i].0@ != s[j].0@
}

/// The mapping an association list denotes. Later entries win, which
/// coincides with lookup of the first match whenever `keys_unique` holds.
pub open spec fn assoc_view<V: View>(s: Seq<(String, V)>) -> Map<Seq<char>, V::V>
    decreases s.len(),
{
    if s.len() == 0 {
        Map::empty()
    } else {
        assoc_view(s.drop_last()).insert(s.last().0@, s.last().1@)
    }
}

/// Each entry of a duplicate-free list is visible in the denoted map.
pub proof fn lemma_assoc_view_member<V: View>(s: Seq<(String, V)>, i: int)
    requires
        keys_unique(s),
        0 <= i < s.len(),
    ensures
        assoc_view(s).contains_key(s[i].0@),
        assoc_view(s)[s[i].0@] == s[i].1@,
    decreases s.len(),
{
    if i < s.len() - 1 {
        lemma_assoc_view_member(s.drop_last(), i);
        assert(s.drop_last()[i] == s[i]);
    }
}

/// A key held by no entry is absent from the denoted map.
pub proof fn lemma_assoc_view_absent<V: View>(s: Seq<(String, V)>, k: Seq<char>)
    requires
        forall|i: int| 0 <= i < s.len() ==> s[i].0@ != k,
    ensures
        !assoc_view(s).contains_key(k),
    decreases s.len(),
{
    if s.len() > 0 {
        assert(forall|i: int| 0 <= i < s.drop_last().len() ==> s.drop_last()[i] == s[i]);
        lemma_assoc_view_absent(s.drop_last(), k);
    }
}

/// A key present in the denoted map is held by some entry.
pub proof fn lemma_assoc_view_index<V: View>(s: Seq<(String, V)>, k: Seq<char>)
    requires
        assoc_view(s).contains_key(k),
    ensures
        exists|i: int| 0 <= i < s.len() && s[i].0@ == k,
{
    if !(exists|i: int| 0 <= i < s.len() && s[i].0@ == k) {
        lemma_assoc_view_absent(s, k);
    }
}

/// Replacing the value at one index of a duplicate-free list inserts into the
/// denoted map.
pub proof fn lemma_assoc_view_update<V: View>(s: Seq<(String, V)>, i: int, v: V)
    requires
        keys_unique(s),
        0 <= i < s.len(),
    ensures
        keys_unique(s.update(i, (s[i].0, v))),
        assoc_view(s.update(i, (s[i].0, v))) == assoc_view(s).insert(s[i].0@, v@),
    decreases s.len(),
{
    let t = s.update(i, (s[i].0, v));
    assert(forall|j: int| 0 <= j < s.len() ==> t[j].0@ == s[j].0@);
    if i == s.len() - 1 {
        assert(t.drop_last() =~= s.drop_last());
        assert(assoc_view(t) =~= assoc_view(s).insert(s[i].0@, v@));
    } else {
        assert(t.drop_last() =~= s.drop_last().update(i, (s[i].0, v)));
        assert(s.drop_last()[i] == s[i]);
        lemma_assoc_view_update(s.drop_last(), i, v);
        // the final entry's key differs from the updated one
        assert(s[i].0@ != s.last().0@);
        assert(assoc_view(t) =~= assoc_view(s).insert(s[i].0@, v@));
    }
}

/// Appending a fresh key to a duplicate-free list inserts into the denoted
/// map and keeps the keys distinct.
pub proof fn lemma_assoc_view_push<V: View>(s: Seq<(String, V)>, k: String, v: V)
    requires
        keys_unique(s),
        forall|i: int| 0 <= i < s.len() ==> s[i].0@ != k@,
    ensures
        keys_unique(s.push((k, v))),
        assoc_view(s.push((k, v))) == assoc_view(s).insert(k@, v@),
{
    assert(s.push((k, v)).drop_last() =~= s);
    assert(forall|i: int| 0 <= i < s.len() ==> s.push((k, v))[i] == s[i]);
}

/// Find the index of the entry holding `name`, if any.
pub fn assoc_find<V>(s: &Vec<(String, V)>, name: &String) -> (r: Option<usize>)
    ensures
        match r {
            Some(i) => i < s@.len() && s@[i as int].0@ == name@,
            None => forall|i: int| 0 <= i < s@.len() ==> s@[i].0@ != name@,
        },
{
    let mut i: usize = 0;
    while i < s.len()
        invariant
            i <= s@.len(),
            forall|j: int| 0 <= j < i ==> s@[j].0@ != name@,
        decreases s@.len() - i,
    {
        if s[i].0 == *name {
            return Some(i);
        }
        i = i + 1;
    }
    None
}

} // verus!
