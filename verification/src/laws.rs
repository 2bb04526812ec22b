//! The laws of the store, stated over its abstract view.
//!
//! Each operation's contract describes its effect on the store's view, a
//! `Map<Seq<char>, Seq<char>>`: `set` is `insert`, `remove` is `remove`,
//! and `get` reads the map. The proof functions here state what those
//! contracts together guarantee across calls.

use vstd::prelude::*;

verus! {

/// After storing `v` under `k`, a lookup of `k` finds exactly `v`.
pub proof fn lemma_set_then_get(m: Map<Seq<char>, Seq<char>>, k: Seq<char>, v: Seq<char>)
    ensures
        m.insert(k, v).contains_key(k),
        m.insert(k, v)[k] == v,
{
}

/// Storing under a key twice keeps only the later value: the second `set`
/// replaces the first outright, it does not merge with it.
pub proof fn lemma_set_overwrites(
    m: Map<Seq<char>, Seq<char>>,
    k: Seq<char>,
    v1: Seq<char>,
    v2: Seq<char>,
)
    ensures
        m.insert(k, v1).insert(k, v2).contains_key(k),
        m.insert(k, v1).insert(k, v2)[k] == v2,
        m.insert(k, v1).insert(k, v2) == m.insert(k, v2),
{
    assert(m.insert(k, v1).insert(k, v2) =~= m.insert(k, v2));
}

/// A key is absent from a fresh store, and stays absent under operations
/// on other keys; so a lookup of a key never stored returns the absent
/// result.
pub proof fn lemma_never_set_is_absent(
    m: Map<Seq<char>, Seq<char>>,
    k: Seq<char>,
    other: Seq<char>,
    v: Seq<char>,
)
    requires
        !m.contains_key(k),
        other != k,
    ensures
        !Map::<Seq<char>, Seq<char>>::empty().contains_key(k),
        !m.insert(other, v).contains_key(k),
        !m.remove(other).contains_key(k),
{
}

/// After storing `v` under `k` and then removing `k`, a lookup of `k`
/// returns the absent result.
pub proof fn lemma_set_then_remove(m: Map<Seq<char>, Seq<char>>, k: Seq<char>, v: Seq<char>)
    ensures
        !m.insert(k, v).remove(k).contains_key(k),
{
}

/// Removing a key that is not present leaves the mapping unchanged: the
/// operation succeeds and disturbs no other binding.
pub proof fn lemma_remove_absent_is_noop(m: Map<Seq<char>, Seq<char>>, k: Seq<char>)
    requires
        !m.contains_key(k),
    ensures
        m.remove(k) == m,
{
    assert(m.remove(k) =~= m);
}

} // verus!
