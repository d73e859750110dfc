//! A small map from names to values, kept in the order in which the names
//! were first inserted.

use vstd::prelude::*;

verus! {

/// A map keyed by name. No name occurs twice.
#[derive(Debug, PartialEq, Eq)]
pub struct NameMap<V> {
    entries: Vec<(String, V)>,
}

/// True when entry `i` of `entries` has the key `key`.
pub open spec fn entry_has_key<V>(entries: Seq<(String, V)>, i: int, key: Seq<char>) -> bool {
    0 <= i < entries.len() && entries[i].0@ == key
}

/// No two entries have the same key.
pub open spec fn keys_distinct<V>(entries: Seq<(String, V)>) -> bool {
    forall|i: int, j: int|
        0 <= i < entries.len() && 0 <= j < entries.len() && i != j ==> entries[i].0@
            != entries[j].0@
}

/// The map that a list of entries with distinct keys stands for.
pub open spec fn entries_map<V>(entries: Seq<(String, V)>) -> Map<Seq<char>, V> {
    Map::new(
        |k: Seq<char>| exists|i: int| entry_has_key(entries, i, k),
        |k: Seq<char>| entries[choose|i: int| entry_has_key(entries, i, k)].1,
    )
}

/// With distinct keys, the map gives each key the value of its one entry.
pub proof fn lemma_entry_value<V>(entries: Seq<(String, V)>, i: int, key: Seq<char>)
    requires
        keys_distinct(entries),
        entry_has_key(entries, i, key),
    ensures
        entries_map(entries).contains_key(key),
        entries_map(entries)[key] == entries[i].1,
{
    let j = choose|j: int| entry_has_key(entries, j, key);
    assert(j == i);
}

impl<V: Copy> View for NameMap<V> {
    type V = Map<Seq<char>, V>;

    closed spec fn view(&self) -> Map<Seq<char>, V> {
        entries_map(self.entries@)
    }
}

impl<V> NameMap<V> {
    /// No name occurs twice.
    #[verifier::type_invariant]
    pub closed spec fn wf(self) -> bool {
        keys_distinct(self.entries@)
    }
}

impl<V: Copy> Clone for NameMap<V> {
    fn clone(&self) -> (out: Self)
        ensures
            out@ == self@,
            out.names() == self.names(),
    {
        proof {
            use_type_invariant(self);
        }
        let mut entries: Vec<(String, V)> = Vec::new();
        let mut i: usize = 0;
        while i < self.entries.len()
            invariant
                i <= self.entries.len(),
                entries@.len() == i,
                forall|j: int| 0 <= j < i ==> entries@[j] == self.entries@[j],
            decreases self.entries.len() - i,
        {
            entries.push((self.entries[i].0.clone(), self.entries[i].1));
            i += 1;
        }
        assert(entries@ =~= self.entries@);
        NameMap { entries }
    }
}

impl<V: Copy> NameMap<V> {
    /// The names in the order in which they were first inserted.
    pub closed spec fn names(&self) -> Seq<Seq<char>> {
        Seq::new(self.entries@.len(), |i: int| self.entries@[i].0@)
    }

    /// Every name of the map occurs once among `names`, and nothing else does.
    pub proof fn lemma_names(&self)
        requires
            self.wf(),
        ensures
            self.names().no_duplicates(),
            forall|k: Seq<char>| self@.contains_key(k) <==> self.names().contains(k),
    {
        let names = self.names();
        assert forall|k: Seq<char>| self@.contains_key(k) <==> names.contains(k) by {
            if self@.contains_key(k) {
                let i = choose|i: int| entry_has_key(self.entries@, i, k);
                assert(names[i] == k);
            }
            if names.contains(k) {
                let i = choose|i: int| 0 <= i < names.len() && names[i] == k;
                assert(entry_has_key(self.entries@, i, k));
            }
        }
    }

    /// The empty map.
    pub fn new() -> (out: Self)
        ensures
            out@ == Map::<Seq<char>, V>::empty(),
            out.names() == Seq::<Seq<char>>::empty(),
    {
        let out = NameMap { entries: Vec::new() };
        assert(out@ =~= Map::<Seq<char>, V>::empty());
        assert(out.names() =~= Seq::<Seq<char>>::empty());
        out
    }

    /// The number of names.
    pub fn len(&self) -> (n: usize)
        ensures
            n == self.names().len(),
    {
        self.entries.len()
    }

    /// The name at position `i`, in insertion order.
    pub fn name_at(&self, i: usize) -> (name: &String)
        requires
            i < self.names().len(),
        ensures
            name@ == self.names()[i as int],
    {
        &self.entries[i].0
    }

    /// The value at position `i`, in insertion order.
    pub fn value_at(&self, i: usize) -> (value: V)
        requires
            i < self.names().len(),
        ensures
            self@.contains_key(self.names()[i as int]),
            value == self@[self.names()[i as int]],
    {
        proof {
            use_type_invariant(self);
            assert(entry_has_key(self.entries@, i as int, self.names()[i as int]));
        }
        self.entries[i].1
    }

    fn position(&self, key: &str) -> (r: Option<usize>)
        ensures
            match r {
                Some(i) => entry_has_key(self.entries@, i as int, key@),
                None => forall|i: int| !entry_has_key(self.entries@, i, key@),
            },
    {
        let mut i: usize = 0;
        while i < self.entries.len()
            invariant
                i <= self.entries.len(),
                forall|j: int| 0 <= j < i ==> self.entries@[j].0@ != key@,
            decreases self.entries.len() - i,
        {
            if self.entries[i].0.as_str().eq(key) {
                return Some(i);
            }
            i += 1;
        }
        None
    }

    /// The value kept for `key`, if there is one.
    pub fn get(&self, key: &str) -> (r: Option<V>)
        ensures
            r == if self@.contains_key(key@) {
                Some(self@[key@])
            } else {
                None
            },
    {
        proof {
            use_type_invariant(self);
        }
        match self.position(key) {
            Some(i) => Some(self.entries[i].1),
            None => None,
        }
    }

    /// Keeps `value` for `key`, in place of what was kept for it before.
    pub fn insert(&mut self, key: String, value: V)
        ensures
            final(self)@ == old(self)@.insert(key@, value),
            final(self).names() == if old(self)@.contains_key(key@) {
                old(self).names()
            } else {
                old(self).names().push(key@)
            },
    {
        proof {
            use_type_invariant(&*self);
        }
        let ghost before = self.entries@;
        let found = self.position(key.as_str());
        let mut entries: Vec<(String, V)> = Vec::new();
        core::mem::swap(&mut self.entries, &mut entries);
        assert(entries@ == before);
        match found {
            Some(i) => {
                entries.set(i, (key, value));
            },
            None => {
                entries.push((key, value));
            },
        }
        proof {
            let after = entries@;
            let at = match found {
                Some(i) => i as int,
                None => before.len() as int,
            };
            assert(entry_has_key(after, at, key@));
            assert forall|j: int, k: Seq<char>| j != at implies (entry_has_key(after, j, k)
                <==> entry_has_key(before, j, k)) by {}
            assert forall|j: int| j != at implies !entry_has_key(before, j, key@) by {}
            assert forall|i: int, j: int|
                0 <= i < after.len() && 0 <= j < after.len() && i != j implies after[i].0@
                != after[j].0@ by {
                if i == at {
                    assert(!entry_has_key(before, j, key@));
                } else if j == at {
                    assert(!entry_has_key(before, i, key@));
                } else {
                    assert(after[i] == before[i] && after[j] == before[j]);
                }
            }
            assert forall|k: Seq<char>| #[trigger]
                entries_map(after).contains_key(k) == old(self)@.insert(key@, value).contains_key(
                    k,
                ) by {
                if entries_map(after).contains_key(k) {
                    let j = choose|j: int| entry_has_key(after, j, k);
                    if j != at {
                        assert(entry_has_key(before, j, k));
                    }
                }
                if entries_map(before).contains_key(k) && k != key@ {
                    let j = choose|j: int| entry_has_key(before, j, k);
                    assert(entry_has_key(after, j, k));
                }
            }
            assert forall|k: Seq<char>| #[trigger]
                entries_map(after).contains_key(k) implies entries_map(after)[k] == old(
                self,
            )@.insert(key@, value)[k] by {
                let j = choose|j: int| entry_has_key(after, j, k);
                lemma_entry_value(after, j, k);
                if j != at {
                    lemma_entry_value(before, j, k);
                }
            }
            assert(entries_map(after) =~= old(self)@.insert(key@, value));
            let names = Seq::new(after.len(), |i: int| after[i].0@);
            match found {
                Some(i) => {
                    assert(entry_has_key(before, i as int, key@));
                    assert(names =~= old(self).names());
                },
                None => {
                    assert(!old(self)@.contains_key(key@));
                    assert(names =~= old(self).names().push(key@));
                },
            }
        }
        self.entries = entries;
    }
}

} // verus!
