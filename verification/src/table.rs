//! A small string-keyed table kept as a vector of entries with distinct keys.
//!
//! Entries keep the order in which keys were first added; replacing the value
//! of a key keeps its position.

use vstd::prelude::*;

verus! {

/// The keys of `entries`, as character sequences.
pub open spec fn entry_keys<V>(entries: Seq<(String, V)>) -> Seq<Seq<char>> {
    entries.map_values(|e: (String, V)| e.0@)
}

/// The values of `entries`, in order.
pub open spec fn entry_values<V>(entries: Seq<(String, V)>) -> Seq<V> {
    entries.map_values(|e: (String, V)| e.1)
}

/// The map that `entries` describes (keys are distinct in a well-formed table).
pub open spec fn entry_map<V>(entries: Seq<(String, V)>) -> Map<Seq<char>, V> {
    Map::new(
        |k: Seq<char>| entry_keys(entries).contains(k),
        |k: Seq<char>| entries[entry_keys(entries).index_of(k)].1,
    )
}

/// With distinct keys, the map gives each entry's own value.
pub proof fn lemma_entry_map_at<V>(entries: Seq<(String, V)>, i: int)
    requires
        entry_keys(entries).no_duplicates(),
        0 <= i < entries.len(),
    ensures
        entry_map(entries).contains_key(entries[i].0@),
        entry_map(entries)[entries[i].0@] == entries[i].1,
        entry_keys(entries).index_of(entries[i].0@) == i,
{
    let ks = entry_keys(entries);
    assert(ks[i] == entries[i].0@);
    assert(ks.contains(entries[i].0@));
    let j = ks.index_of(entries[i].0@);
    assert(0 <= j < ks.len() && ks[j] == ks[i]);
}

/// Changing the value of one entry keeps the keys and changes the map at that key.
pub proof fn lemma_entry_map_update<V>(entries: Seq<(String, V)>, i: int, v: V)
    requires
        entry_keys(entries).no_duplicates(),
        0 <= i < entries.len(),
    ensures
        entry_keys(entries.update(i, (entries[i].0, v))) == entry_keys(entries),
        entry_map(entries.update(i, (entries[i].0, v))) == entry_map(entries).insert(
            entries[i].0@,
            v,
        ),
{
    let e2 = entries.update(i, (entries[i].0, v));
    assert(entry_keys(e2) =~= entry_keys(entries));
    let k = entries[i].0@;
    assert forall|x: Seq<char>| #[trigger] entry_map(e2).contains_key(x) implies entry_map(e2)[x]
        == entry_map(entries).insert(k, v)[x] by {
        assert(entry_keys(e2).contains(x));
        let j = choose|j: int| 0 <= j < entry_keys(e2).len() && entry_keys(e2)[j] == x;
        assert(entry_keys(entries)[j] == x);
        lemma_entry_map_at(e2, j);
        lemma_entry_map_at(entries, j);
        if j != i {
            assert(entry_keys(entries)[i] == k);
            assert(x != k);
            assert(e2[j] == entries[j]);
        } else {
            assert(x == k);
        }
    }
    lemma_entry_map_at(entries, i);
    assert(entry_map(e2) =~= entry_map(entries).insert(k, v));
}

/// The referenced values of a sequence of references.
pub open spec fn derefs<V>(s: Seq<&V>) -> Seq<V> {
    s.map_values(|x: &V| *x)
}

/// Pushing a reference pushes its value.
pub proof fn lemma_derefs_push<V>(s: Seq<&V>, x: &V)
    ensures
        derefs(s.push(x)) == derefs(s).push(*x),
{
    assert(derefs(s.push(x)) =~= derefs(s).push(*x));
}

/// A table with distinct string keys.
#[derive(Debug, Clone)]
pub struct Table<V> {
    pub entries: Vec<(String, V)>,
}

impl<V> Table<V> {
    pub open spec fn wf(&self) -> bool {
        entry_keys(self.entries@).no_duplicates()
    }

    pub open spec fn keys(&self) -> Seq<Seq<char>> {
        entry_keys(self.entries@)
    }

    pub open spec fn values(&self) -> Seq<V> {
        entry_values(self.entries@)
    }

    pub open spec fn map(&self) -> Map<Seq<char>, V> {
        entry_map(self.entries@)
    }

    pub fn new() -> (t: Self)
        ensures
            t.wf(),
            t.entries@ == Seq::<(String, V)>::empty(),
            t.map() == Map::<Seq<char>, V>::empty(),
    {
        let t = Table { entries: Vec::new() };
        assert(t.map() =~= Map::<Seq<char>, V>::empty());
        t
    }

    pub fn len(&self) -> (n: usize)
        ensures
            n == self.entries@.len(),
    {
        self.entries.len()
    }

    /// The position of `key`, if present.
    pub fn find(&self, key: &String) -> (r: Option<usize>)
        ensures
            r matches Some(i) ==> i < self.entries@.len() && self.keys()[i as int] == key@,
            r is None ==> !self.keys().contains(key@),
    {
        let mut i: usize = 0;
        while i < self.entries.len()
            invariant
                i <= self.entries@.len(),
                forall|j: int| 0 <= j < i ==> self.keys()[j] != key@,
            decreases self.entries@.len() - i,
        {
            if self.entries[i].0 == *key {
                return Some(i);
            }
            i = i + 1;
        }
        None
    }

    /// Adds an entry for a key that is not present yet.
    pub fn push(&mut self, key: String, value: V)
        requires
            old(self).wf(),
            !old(self).keys().contains(key@),
        ensures
            final(self).wf(),
            final(self).entries@ == old(self).entries@.push((key, value)),
            final(self).map() == old(self).map().insert(key@, value),
    {
        let ghost k = key@;
        self.entries.push((key, value));
        proof {
            let old_e = old(self).entries@;
            let e = self.entries@;
            assert(entry_keys(e) =~= entry_keys(old_e).push(k));
            assert forall|x: Seq<char>| #[trigger] self.map().contains_key(x) <==> old(self).map().insert(
                k,
                value,
            ).contains_key(x) by {
                if entry_keys(e).contains(x) && x != k {
                    let j = choose|j: int| 0 <= j < entry_keys(e).len() && entry_keys(e)[j] == x;
                    assert(entry_keys(old_e)[j] == x);
                }
                if x == k {
                    assert(entry_keys(e)[old_e.len() as int] == x);
                }
                if entry_keys(old_e).contains(x) {
                    let j = choose|j: int|
                        0 <= j < entry_keys(old_e).len() && entry_keys(old_e)[j] == x;
                    assert(entry_keys(e)[j] == x);
                }
            }
            assert forall|x: Seq<char>| #[trigger] self.map().contains_key(x) implies self.map()[x]
                == old(self).map().insert(k, value)[x] by {
                let j = choose|j: int| 0 <= j < entry_keys(e).len() && entry_keys(e)[j] == x;
                lemma_entry_map_at(e, j);
                if j < old_e.len() {
                    lemma_entry_map_at(old_e, j);
                }
            }
            assert(self.map() =~= old(self).map().insert(k, value));
        }
    }

    /// Takes out the entry at position `i`.
    pub fn remove_at(&mut self, i: usize) -> (r: (String, V))
        requires
            old(self).wf(),
            i < old(self).entries@.len(),
        ensures
            final(self).wf(),
            r == old(self).entries@[i as int],
            final(self).entries@ == old(self).entries@.remove(i as int),
            final(self).map() == old(self).map().remove(r.0@),
    {
        let r = self.entries.remove(i);
        proof {
            let old_e = old(self).entries@;
            let e = self.entries@;
            let k = r.0@;
            assert(entry_keys(e) =~= entry_keys(old_e).remove(i as int));
            assert(entry_keys(old_e)[i as int] == k);
            assert forall|x: Seq<char>| #[trigger] self.map().contains_key(x) <==> old(self).map().remove(
                k,
            ).contains_key(x) by {
                if entry_keys(old_e).contains(x) && x != k {
                    let j = choose|j: int|
                        0 <= j < entry_keys(old_e).len() && entry_keys(old_e)[j] == x;
                    assert(j != i);
                    if j < i {
                        assert(entry_keys(e)[j] == x);
                    } else {
                        assert(entry_keys(e)[j - 1] == x);
                    }
                }
                if entry_keys(e).contains(x) {
                    let j = choose|j: int| 0 <= j < entry_keys(e).len() && entry_keys(e)[j] == x;
                    if j < i {
                        assert(entry_keys(old_e)[j] == x);
                    } else {
                        assert(entry_keys(old_e)[j + 1] == x);
                    }
                    assert(x != k);
                }
            }
            assert forall|x: Seq<char>| #[trigger] self.map().contains_key(x) implies self.map()[x]
                == old(self).map().remove(k)[x] by {
                let j = choose|j: int| 0 <= j < entry_keys(e).len() && entry_keys(e)[j] == x;
                lemma_entry_map_at(e, j);
                if j < i {
                    lemma_entry_map_at(old_e, j);
                } else {
                    lemma_entry_map_at(old_e, j + 1);
                }
            }
            assert(self.map() =~= old(self).map().remove(k));
        }
        r
    }

    /// Puts an entry for an absent key back at position `i`.
    pub fn insert_at(&mut self, i: usize, key: String, value: V)
        requires
            old(self).wf(),
            i <= old(self).entries@.len(),
            !old(self).keys().contains(key@),
        ensures
            final(self).wf(),
            final(self).entries@ == old(self).entries@.insert(i as int, (key, value)),
            final(self).map() == old(self).map().insert(key@, value),
    {
        let ghost k = key@;
        self.entries.insert(i, (key, value));
        proof {
            let old_e = old(self).entries@;
            let e = self.entries@;
            assert(entry_keys(e) =~= entry_keys(old_e).insert(i as int, k));
            assert forall|x: Seq<char>| #[trigger] self.map().contains_key(x) <==> old(self).map().insert(
                k,
                value,
            ).contains_key(x) by {
                if entry_keys(old_e).contains(x) {
                    let j = choose|j: int|
                        0 <= j < entry_keys(old_e).len() && entry_keys(old_e)[j] == x;
                    if j < i {
                        assert(entry_keys(e)[j] == x);
                    } else {
                        assert(entry_keys(e)[j + 1] == x);
                    }
                }
                if x == k {
                    assert(entry_keys(e)[i as int] == x);
                }
                if entry_keys(e).contains(x) && x != k {
                    let j = choose|j: int| 0 <= j < entry_keys(e).len() && entry_keys(e)[j] == x;
                    if j < i {
                        assert(entry_keys(old_e)[j] == x);
                    } else {
                        assert(j != i);
                        assert(entry_keys(old_e)[j - 1] == x);
                    }
                }
            }
            assert forall|x: Seq<char>| #[trigger] self.map().contains_key(x) implies self.map()[x]
                == old(self).map().insert(k, value)[x] by {
                let j = choose|j: int| 0 <= j < entry_keys(e).len() && entry_keys(e)[j] == x;
                lemma_entry_map_at(e, j);
                if j < i {
                    lemma_entry_map_at(old_e, j);
                } else if j > i {
                    lemma_entry_map_at(old_e, j - 1);
                }
            }
            assert(self.map() =~= old(self).map().insert(k, value));
        }
    }

    /// Replaces the value at position `i`, keeping its key and position.
    pub fn set_value(&mut self, i: usize, value: V)
        requires
            old(self).wf(),
            i < old(self).entries@.len(),
        ensures
            final(self).wf(),
            final(self).entries@ == old(self).entries@.update(
                i as int,
                (old(self).entries@[i as int].0, value),
            ),
            final(self).map() == old(self).map().insert(old(self).keys()[i as int], value),
    {
        let ghost old_e = self.entries@;
        let (k, _v) = self.remove_at(i);
        proof {
            assert(!self.keys().contains(k@)) by {
                if self.keys().contains(k@) {
                    let j = choose|j: int| 0 <= j < self.keys().len() && self.keys()[j] == k@;
                    if j < i {
                        assert(entry_keys(old_e)[j] == k@);
                    } else {
                        assert(entry_keys(old_e)[j + 1] == k@);
                    }
                    assert(entry_keys(old_e)[i as int] == k@);
                }
            }
            lemma_entry_map_at(old_e, i as int);
            assert(old(self).map().remove(k@).insert(k@, value) =~= old(self).map().insert(k@, value));
        }
        self.insert_at(i, k, value);
        assert(self.entries@ =~= old_e.update(i as int, (old_e[i as int].0, value)));
    }

    /// The value at position `i`, to change in place; the key stays.
    pub fn value_mut(&mut self, i: usize) -> (r: &mut V)
        requires
            i < old(self).entries@.len(),
        ensures
            *r == old(self).entries@[i as int].1,
            final(self).entries@ == old(self).entries@.update(
                i as int,
                (old(self).entries@[i as int].0, *final(r)),
            ),
    {
        &mut self.entries[i].1
    }

    /// Removes every entry.
    pub fn clear(&mut self)
        ensures
            final(self).wf(),
            final(self).entries@ == Seq::<(String, V)>::empty(),
            final(self).map() == Map::<Seq<char>, V>::empty(),
    {
        self.entries.clear();
        assert(self.map() =~= Map::<Seq<char>, V>::empty());
    }
}

} // verus!
