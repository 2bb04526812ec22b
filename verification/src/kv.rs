//! An in-memory store of string key/value pairs.
//!
//! The store owns a mapping from key to value. Keys are unique: storing a
//! value under a key that is already present replaces the previous value
//! wholesale. A lookup miss is not a fault; it is the designated absent
//! result, reported as `None`.
//!
//! The store is volatile (nothing is persisted) and assumes a single
//! exclusive owner for its whole lifetime: callers that share one across
//! threads must add their own synchronization around it.

use vstd::prelude::*;

verus! {

/// An in-memory mapping from string keys to string values.
///
/// Abstractly, a `KvStore` is a `Map<Seq<char>, Seq<char>>` (its view `@`),
/// and each operation's contract says what it does to that map: `set`
/// inserts, `remove` deletes, `get` looks up.
pub struct KvStore {
    entries: Vec<(String, String)>,
}

/// No two entries carry the same key.
spec fn keys_unique(entries: Seq<(String, String)>) -> bool {
    forall|i: int, j: int|
        0 <= i < entries.len() && 0 <= j < entries.len() && i != j
            ==> entries[i].0@ != entries[j].0@
}

/// The mapping that a sequence of entries denotes: each key present in the
/// sequence is bound to the value of an entry carrying it.
spec fn mapping_of(entries: Seq<(String, String)>) -> Map<Seq<char>, Seq<char>> {
    Map::new(
        |k: Seq<char>| exists|i: int| 0 <= i < entries.len() && entries[i].0@ == k,
        |k: Seq<char>|
            entries[choose|i: int| 0 <= i < entries.len() && entries[i].0@ == k].1@,
    )
}

impl View for KvStore {
    type V = Map<Seq<char>, Seq<char>>;

    closed spec fn view(&self) -> Map<Seq<char>, Seq<char>> {
        mapping_of(self.entries@)
    }
}

/// With unique keys, the entry at index `i` is the one that binds its key.
proof fn lemma_mapping_of_index(entries: Seq<(String, String)>, i: int)
    requires
        keys_unique(entries),
        0 <= i < entries.len(),
    ensures
        mapping_of(entries).contains_key(entries[i].0@),
        mapping_of(entries)[entries[i].0@] == entries[i].1@,
{
    let k = entries[i].0@;
    assert(exists|j: int| 0 <= j < entries.len() && entries[j].0@ == k) by {
        assert(entries[i].0@ == k);
    }
    let w = choose|j: int| 0 <= j < entries.len() && entries[j].0@ == k;
    assert(entries[w].0@ == entries[i].0@);
    assert(w == i);
}

/// A key that no entry carries is not in the mapping.
proof fn lemma_mapping_of_absent(entries: Seq<(String, String)>, k: Seq<char>)
    requires
        forall|i: int| 0 <= i < entries.len() ==> entries[i].0@ != k,
    ensures
        !mapping_of(entries).contains_key(k),
{
}

/// Replacing the entry at index `i` by one carrying the same key binds that
/// key to the new value and leaves every other binding alone.
proof fn lemma_update_entry(prev: Seq<(String, String)>, cur: Seq<(String, String)>, i: int)
    requires
        keys_unique(prev),
        0 <= i < prev.len(),
        cur.len() == prev.len(),
        forall|j: int| 0 <= j < prev.len() && j != i ==> cur[j] == prev[j],
        cur[i].0@ == prev[i].0@,
    ensures
        keys_unique(cur),
        mapping_of(cur) == mapping_of(prev).insert(cur[i].0@, cur[i].1@),
{
    let k = cur[i].0@;
    let v = cur[i].1@;
    assert forall|j: int| 0 <= j < cur.len() implies #[trigger] cur[j].0@ == prev[j].0@ by {
        if j != i {
            assert(cur[j] == prev[j]);
        }
    }
    assert forall|j1: int, j2: int|
        0 <= j1 < cur.len() && 0 <= j2 < cur.len() && j1 != j2 implies cur[j1].0@
        != cur[j2].0@ by {
        assert(prev[j1].0@ != prev[j2].0@);
    }
    let m0 = mapping_of(prev);
    let m1 = mapping_of(cur);
    let mt = m0.insert(k, v);
    assert forall|kk: Seq<char>| m1.contains_key(kk) implies mt.contains_key(kk) && m1[kk]
        == mt[kk] by {
        let w = choose|j: int| 0 <= j < cur.len() && cur[j].0@ == kk;
        lemma_mapping_of_index(cur, w);
        if w == i {
            assert(kk == k);
            assert(m1[kk] == v);
        } else {
            assert(prev[w].0@ == kk);
            lemma_mapping_of_index(prev, w);
            assert(prev[w].0@ != prev[i].0@);
            assert(kk != k);
        }
    }
    assert forall|kk: Seq<char>| mt.contains_key(kk) implies m1.contains_key(kk) by {
        if kk == k {
            lemma_mapping_of_index(cur, i);
        } else {
            let w = choose|j: int| 0 <= j < prev.len() && prev[j].0@ == kk;
            assert(cur[w].0@ == kk);
            lemma_mapping_of_index(cur, w);
        }
    }
    assert(m1 =~= mt);
}

/// Appending an entry whose key no entry carries binds that key to the new
/// value and leaves every other binding alone.
proof fn lemma_push_entry(prev: Seq<(String, String)>, pair: (String, String))
    requires
        keys_unique(prev),
        forall|j: int| 0 <= j < prev.len() ==> prev[j].0@ != pair.0@,
    ensures
        keys_unique(prev.push(pair)),
        mapping_of(prev.push(pair)) == mapping_of(prev).insert(pair.0@, pair.1@),
{
    let cur = prev.push(pair);
    let k = pair.0@;
    let v = pair.1@;
    assert forall|j1: int, j2: int|
        0 <= j1 < cur.len() && 0 <= j2 < cur.len() && j1 != j2 implies cur[j1].0@
        != cur[j2].0@ by {
        if j1 < prev.len() && j2 < prev.len() {
            assert(prev[j1].0@ != prev[j2].0@);
        }
    }
    let m0 = mapping_of(prev);
    let m1 = mapping_of(cur);
    let mt = m0.insert(k, v);
    assert forall|kk: Seq<char>| m1.contains_key(kk) implies mt.contains_key(kk) && m1[kk]
        == mt[kk] by {
        let w = choose|j: int| 0 <= j < cur.len() && cur[j].0@ == kk;
        lemma_mapping_of_index(cur, w);
        if w == prev.len() {
            assert(kk == k);
            assert(m1[kk] == v);
        } else {
            assert(prev[w].0@ == kk);
            lemma_mapping_of_index(prev, w);
            assert(kk != k);
        }
    }
    assert forall|kk: Seq<char>| mt.contains_key(kk) implies m1.contains_key(kk) by {
        if kk == k {
            lemma_mapping_of_index(cur, prev.len() as int);
        } else {
            let w = choose|j: int| 0 <= j < prev.len() && prev[j].0@ == kk;
            assert(cur[w].0@ == kk);
            lemma_mapping_of_index(cur, w);
        }
    }
    assert(m1 =~= mt);
}

/// Deleting the entry at index `i` unbinds its key and leaves every other
/// binding alone.
proof fn lemma_remove_entry(prev: Seq<(String, String)>, i: int)
    requires
        keys_unique(prev),
        0 <= i < prev.len(),
    ensures
        keys_unique(prev.remove(i)),
        mapping_of(prev.remove(i)) == mapping_of(prev).remove(prev[i].0@),
{
    let cur = prev.remove(i);
    let k = prev[i].0@;
    assert forall|j1: int, j2: int|
        0 <= j1 < cur.len() && 0 <= j2 < cur.len() && j1 != j2 implies cur[j1].0@
        != cur[j2].0@ by {
        let o1 = if j1 < i { j1 } else { j1 + 1 };
        let o2 = if j2 < i { j2 } else { j2 + 1 };
        assert(cur[j1] == prev[o1]);
        assert(cur[j2] == prev[o2]);
        assert(prev[o1].0@ != prev[o2].0@);
    }
    let m0 = mapping_of(prev);
    let m1 = mapping_of(cur);
    let mt = m0.remove(k);
    assert forall|kk: Seq<char>| m1.contains_key(kk) implies mt.contains_key(kk) && m1[kk]
        == mt[kk] by {
        let w = choose|j: int| 0 <= j < cur.len() && cur[j].0@ == kk;
        let ow = if w < i { w } else { w + 1 };
        assert(cur[w] == prev[ow]);
        assert(prev[ow].0@ != prev[i].0@);
        lemma_mapping_of_index(cur, w);
        lemma_mapping_of_index(prev, ow);
    }
    assert forall|kk: Seq<char>| mt.contains_key(kk) implies m1.contains_key(kk) by {
        let ow = choose|j: int| 0 <= j < prev.len() && prev[j].0@ == kk;
        assert(prev[ow].0@ != prev[i].0@);
        let w = if ow < i { ow } else { ow - 1 };
        assert(cur[w] == prev[ow]);
        lemma_mapping_of_index(cur, w);
    }
    assert(m1 =~= mt);
}

/// The index of the entry carrying `key`, if one is present.
fn find_index(entries: &Vec<(String, String)>, key: &String) -> (found: Option<usize>)
    ensures
        match found {
            Some(i) => i < entries@.len() && entries@[i as int].0@ == key@,
            None => forall|i: int| 0 <= i < entries@.len() ==> entries@[i].0@ != key@,
        },
{
    let mut idx: usize = 0;
    while idx < entries.len()
        invariant
            idx <= entries@.len(),
            forall|i: int| 0 <= i < idx ==> entries@[i].0@ != key@,
        decreases entries@.len() - idx,
    {
        if entries[idx].0 == *key {
            return Some(idx);
        }
        idx += 1;
    }
    None
}

impl KvStore {
    #[verifier::type_invariant]
    spec fn well_formed(self) -> bool {
        keys_unique(self.entries@)
    }

    /// Creates an empty `KvStore`.
    pub fn new() -> (store: KvStore)
        ensures
            store@ == Map::<Seq<char>, Seq<char>>::empty(),
    {
        let store = KvStore { entries: Vec::new() };
        proof {
            assert(store@ =~= Map::<Seq<char>, Seq<char>>::empty());
        }
        store
    }

    /// Stores `value` under `key`, replacing any value previously stored
    /// under it. Accepts any strings, the empty string included, and always
    /// succeeds.
    pub fn set(&mut self, key: String, value: String)
        ensures
            final(self)@ == old(self)@.insert(key@, value@),
    {
        proof {
            use_type_invariant(&*self);
        }
        let mut entries: Vec<(String, String)> = Vec::new();
        std::mem::swap(&mut entries, &mut self.entries);
        let ghost prev = entries@;
        match find_index(&entries, &key) {
            Some(i) => {
                entries.set(i, (key, value));
                proof {
                    lemma_update_entry(prev, entries@, i as int);
                }
            },
            None => {
                entries.push((key, value));
                proof {
                    lemma_push_entry(prev, entries@.last());
                }
            },
        }
        self.entries = entries;
    }

    /// Returns the value currently stored under `key`, or `None` if no
    /// value is stored under it. Absence is a normal outcome, not a fault.
    /// Does not change the store.
    pub fn get(&self, key: String) -> (value: Option<String>)
        ensures
            match value {
                Some(v) => self@.contains_key(key@) && v@ == self@[key@],
                None => !self@.contains_key(key@),
            },
    {
        proof {
            use_type_invariant(self);
        }
        match find_index(&self.entries, &key) {
            Some(i) => {
                proof {
                    lemma_mapping_of_index(self.entries@, i as int);
                }
                Some(self.entries[i].1.clone())
            },
            None => {
                proof {
                    lemma_mapping_of_absent(self.entries@, key@);
                }
                None
            },
        }
    }

    /// Deletes the entry for `key` if one is present; does nothing if none
    /// is. Always succeeds, whether or not the key was present.
    pub fn remove(&mut self, key: String)
        ensures
            final(self)@ == old(self)@.remove(key@),
    {
        proof {
            use_type_invariant(&*self);
        }
        let mut entries: Vec<(String, String)> = Vec::new();
        std::mem::swap(&mut entries, &mut self.entries);
        let ghost prev = entries@;
        match find_index(&entries, &key) {
            Some(i) => {
                proof {
                    lemma_remove_entry(prev, i as int);
                }
                let _removed = entries.remove(i);
            },
            None => {
                proof {
                    lemma_mapping_of_absent(prev, key@);
                    assert(mapping_of(prev).remove(key@) =~= mapping_of(prev));
                }
            },
        }
        self.entries = entries;
    }
}

impl Default for KvStore {
    /// Creates an empty `KvStore`, as `new` does.
    fn default() -> (store: KvStore)
        ensures
            store@ == Map::<Seq<char>, Seq<char>>::empty(),
    {
        KvStore::new()
    }
}

} // verus!
