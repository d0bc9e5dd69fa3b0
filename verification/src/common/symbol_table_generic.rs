use vstd::prelude::*;

use crate::util::str_equal;

verus! {

/// A table from names to entries, keeping each name at most once.
pub struct SymbolTable<E> {
    entries: Vec<(String, E)>,
}

impl<E> SymbolTable<E> {
    #[verifier::type_invariant]
    spec fn names_distinct(self) -> bool {
        forall|i: int, j: int|
            0 <= i < self.entries@.len() && 0 <= j < self.entries@.len() && i != j
                ==> #[trigger] self.entries@[i].0@ != #[trigger] self.entries@[j].0@
    }

    /// The index at which `name` is stored, if it is stored.
    spec fn has_index(self, name: Seq<char>, i: int) -> bool {
        0 <= i < self.entries@.len() && self.entries@[i].0@ == name
    }
}

impl<E> View for SymbolTable<E> {
    type V = Map<Seq<char>, E>;

    closed spec fn view(&self) -> Map<Seq<char>, E> {
        Map::new(
            |k: Seq<char>| exists|i: int| self.has_index(k, i),
            |k: Seq<char>| self.entries@[choose|i: int| self.has_index(k, i)].1,
        )
    }
}

impl<E> SymbolTable<E> {
    proof fn lemma_index(&self, i: int)
        requires
            self.names_distinct(),
            0 <= i < self.entries@.len(),
        ensures
            self@.contains_key(self.entries@[i].0@),
            self@[self.entries@[i].0@] == self.entries@[i].1,
    {
        let k = self.entries@[i].0@;
        assert(self.has_index(k, i));
        let j = choose|j: int| self.has_index(k, j);
        assert(i == j);
    }

    /// The entries, each with its name; every name of the table occurs once.
    pub closed spec fn entries_seq(&self) -> Seq<(String, E)> {
        self.entries@
    }

    /// Creates an empty table.
    pub fn new() -> (table: Self)
        ensures
            table@ == Map::<Seq<char>, E>::empty(),
    {
        let table = SymbolTable { entries: Vec::new() };
        assert(table@ =~= Map::<Seq<char>, E>::empty());
        table
    }

    fn find(&self, name: &str) -> (r: Option<usize>)
        ensures
            r matches Some(i) ==> self.has_index(name@, i as int),
            r is None ==> !self@.contains_key(name@),
    {
        let mut i: usize = 0;
        while i < self.entries.len()
            invariant
                i <= self.entries@.len(),
                forall|j: int| 0 <= j < i ==> self.entries@[j].0@ != name@,
            decreases self.entries@.len() - i,
        {
            if str_equal(self.entries[i].0.as_str(), name) {
                return Some(i);
            }
            i = i + 1;
        }
        None
    }

    /// Stores `new_entry` under `name` and hands back the entry it replaces, if any.
    pub fn insert(&mut self, name: &str, new_entry: E) -> (previous: Option<E>)
        ensures
            final(self)@ == old(self)@.insert(name@, new_entry),
            previous == (if old(self)@.contains_key(name@) {
                Some(old(self)@[name@])
            } else {
                None::<E>
            }),
    {
        proof {
            use_type_invariant(&*self);
        }
        let ghost old_self = *self;
        assert(old_self.names_distinct());
        match self.find(name) {
            Some(i) => {
                proof {
                    old_self.lemma_index(i as int);
                }
                let mut taken = SymbolTable { entries: Vec::new() };
                std::mem::swap(self, &mut taken);
                let mut entries = taken.entries;
                let (key, previous) = entries.remove(i);
                entries.insert(i, (key, new_entry));
                let ghost new_entries = entries@;
                proof {
                    assert forall|a: int, b: int|
                        0 <= a < new_entries.len() && 0 <= b < new_entries.len() && a != b
                            implies #[trigger] new_entries[a].0@ != #[trigger] new_entries[b].0@
                    by {
                        assert(new_entries[a].0 == old_self.entries@[a].0);
                        assert(new_entries[b].0 == old_self.entries@[b].0);
                    }
                }
                *self = SymbolTable { entries };
                proof {
                    let m = old_self@.insert(name@, new_entry);
                    assert forall|k: Seq<char>| #[trigger] self@.contains_key(k) == m.contains_key(k) by {
                        if m.contains_key(k) && k != name@ {
                            let j = choose|j: int| old_self.has_index(k, j);
                            assert(self.has_index(k, j));
                        }
                        if self@.contains_key(k) && k != name@ {
                            let j = choose|j: int| self.has_index(k, j);
                            assert(old_self.has_index(k, j));
                        }
                        if k == name@ {
                            assert(self.has_index(k, i as int));
                        }
                    }
                    assert(self.entries@ == new_entries);
                    assert forall|k: Seq<char>| #[trigger] self@.contains_key(k) implies self@[k] == m[k] by {
                        let j = choose|j: int| self.has_index(k, j);
                        self.lemma_index(j);
                        if k != name@ {
                            assert(old_self.has_index(k, j));
                            old_self.lemma_index(j);
                        }
                    }
                    assert(self@ =~= m);
                }
                Some(previous)
            },
            None => {
                let key = String::from_str(name);
                let mut taken = SymbolTable { entries: Vec::new() };
                std::mem::swap(self, &mut taken);
                let mut entries = taken.entries;
                entries.push((key, new_entry));
                let ghost new_entries = entries@;
                proof {
                    let n = old_self.entries@.len() as int;
                    assert forall|a: int, b: int|
                        0 <= a < new_entries.len() && 0 <= b < new_entries.len() && a != b
                            implies #[trigger] new_entries[a].0@ != #[trigger] new_entries[b].0@
                    by {
                        if a == n {
                            assert(old_self.entries@[b].0@ != name@) by {
                                if old_self.entries@[b].0@ == name@ {
                                    assert(old_self.has_index(name@, b));
                                }
                            }
                        } else if b == n {
                            assert(old_self.entries@[a].0@ != name@) by {
                                if old_self.entries@[a].0@ == name@ {
                                    assert(old_self.has_index(name@, a));
                                }
                            }
                        } else {
                            assert(new_entries[a] == old_self.entries@[a]);
                            assert(new_entries[b] == old_self.entries@[b]);
                        }
                    }
                }
                *self = SymbolTable { entries };
                proof {
                    let m = old_self@.insert(name@, new_entry);
                    let n = old_self.entries@.len() as int;
                    assert forall|k: Seq<char>| #[trigger] self@.contains_key(k) == m.contains_key(k) by {
                        if m.contains_key(k) && k != name@ {
                            let j = choose|j: int| old_self.has_index(k, j);
                            assert(self.has_index(k, j));
                        }
                        if self@.contains_key(k) && k != name@ {
                            let j = choose|j: int| self.has_index(k, j);
                            assert(old_self.has_index(k, j));
                        }
                        if k == name@ {
                            assert(self.has_index(k, n));
                        }
                    }
                    assert(self.entries@ == new_entries);
                    assert forall|k: Seq<char>| #[trigger] self@.contains_key(k) implies self@[k] == m[k] by {
                        let j = choose|j: int| self.has_index(k, j);
                        self.lemma_index(j);
                        if k != name@ {
                            assert(old_self.has_index(k, j));
                            old_self.lemma_index(j);
                        }
                    }
                    assert(self@ =~= m);
                }
                None
            },
        }
    }

    /// The entry stored under `name`, if there is one.
    pub fn get_entry(&self, name: &str) -> (entry: Option<&E>)
        ensures
            entry == (if self@.contains_key(name@) {
                Some(&self@[name@])
            } else {
                None::<&E>
            }),
    {
        match self.find(name) {
            Some(i) => {
                proof {
                    use_type_invariant(self);
                    self.lemma_index(i as int);
                }
                Some(&self.entries[i].1)
            },
            None => None,
        }
    }

    /// A clone of the entry stored under `name`, if there is one.
    pub fn get_entry_cloned(&self, name: &str) -> (entry: Option<E>)
        where
            E: Clone,
        ensures
            entry is Some == self@.contains_key(name@),
            entry matches Some(e) ==> cloned::<E>(self@[name@], e),
    {
        match self.get_entry(name) {
            Some(e) => Some(e.clone()),
            None => None,
        }
    }

    /// All names with their entries; each name of the table occurs exactly once.
    pub fn get_all_entries(&self) -> (all: &Vec<(String, E)>)
        ensures
            all@ == self.entries_seq(),
            forall|i: int|
                0 <= i < all@.len() ==> self@.contains_key(#[trigger] all@[i].0@) && self@[all@[i].0@]
                    == all@[i].1,
            forall|k: Seq<char>|
                self@.contains_key(k) ==> exists|i: int| 0 <= i < all@.len() && #[trigger] all@[i].0@ == k,
            forall|i: int, j: int|
                0 <= i < all@.len() && 0 <= j < all@.len() && i != j ==> #[trigger] all@[i].0@
                    != #[trigger] all@[j].0@,
    {
        proof {
            use_type_invariant(self);
            assert forall|i: int| 0 <= i < self.entries@.len() implies self@.contains_key(
                #[trigger] self.entries@[i].0@,
            ) && self@[self.entries@[i].0@] == self.entries@[i].1 by {
                self.lemma_index(i);
            }
            assert forall|k: Seq<char>| self@.contains_key(k) implies exists|i: int|
                0 <= i < self.entries@.len() && #[trigger] self.entries@[i].0@ == k by {
                let i = choose|i: int| self.has_index(k, i);
                assert(self.entries@[i].0@ == k);
            }
        }
        &self.entries
    }

    /// Replaces the entry stored under `name` when there is one; tells whether there was.
    pub fn modify(&mut self, name: &str, new_entry: E) -> (found: bool)
        ensures
            found == old(self)@.contains_key(name@),
            final(self)@ == modified(old(self)@, name@, new_entry),
    {
        match self.find(name) {
            Some(_) => {
                let _ = self.insert(name, new_entry);
                true
            },
            None => false,
        }
    }

    /// Changes the entry stored under `name` by `change`, when there is one; creates none.
    /// Tells whether there was an entry.
    pub fn and_modify<F: Fn(&E) -> E>(&mut self, name: &str, change: F) -> (found: bool)
        requires
            forall|e: &E| change.requires((e,)),
        ensures
            found == old(self)@.contains_key(name@),
            found ==> exists|w: E|
                #[trigger] change.ensures((&old(self)@[name@],), w)
                && final(self)@ == old(self)@.insert(name@, w),
            !found ==> final(self)@ == old(self)@,
    {
        let changed = match self.get_entry(name) {
            Some(current) => Some(change(current)),
            None => None,
        };
        match changed {
            Some(w) => {
                let _ = self.insert(name, w);
                true
            },
            None => false,
        }
    }

    /// Removes all entries.
    pub fn clear(&mut self)
        ensures
            final(self)@ == Map::<Seq<char>, E>::empty(),
    {
        *self = SymbolTable { entries: Vec::new() };
        assert(self@ =~= Map::<Seq<char>, E>::empty());
    }
}

/// What a read gives back of a write: after `insert`, `get_entry` of the same name yields the
/// inserted entry, and every other name keeps its entry.
pub proof fn law_get_after_insert<E>(before: Map<Seq<char>, E>, name: Seq<char>, entry: E, other: Seq<char>)
    requires
        other != name,
    ensures
        before.insert(name, entry).contains_key(name),
        before.insert(name, entry)[name] == entry,
        before.insert(name, entry).contains_key(other) == before.contains_key(other),
        before.contains_key(other) ==> before.insert(name, entry)[other] == before[other],
{
}


/// The table after `modify(name, entry)`: the entry of `name` is replaced when there is one.
pub open spec fn modified<E>(before: Map<Seq<char>, E>, name: Seq<char>, entry: E) -> Map<Seq<char>, E> {
    if before.contains_key(name) {
        before.insert(name, entry)
    } else {
        before
    }
}

/// What `modify` does to a table: a name that has an entry gets the new one, a name without
/// an entry gets none (nothing is created), and every other name keeps its entry.
pub proof fn law_modify<E>(before: Map<Seq<char>, E>, name: Seq<char>, entry: E, other: Seq<char>)
    requires
        other != name,
    ensures
        modified(before, name, entry).contains_key(name) == before.contains_key(name),
        before.contains_key(name) ==> modified(before, name, entry)[name] == entry,
        modified(before, name, entry).contains_key(other) == before.contains_key(other),
        before.contains_key(other) ==> modified(before, name, entry)[other] == before[other],
{
}

} // verus!
