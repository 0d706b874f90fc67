//! Headers: a map from header names to values.
//!
//! The entries are kept in a list and found by comparing names. `vstd` models
//! hashing for integer keys only, so nothing could be proved of a hash map
//! keyed by text; of the list everything below is.

use vstd::prelude::*;

verus! {

/// A set of headers. No name occurs twice: a value written under a name
/// that is already there takes the place of the old one.
#[derive(Debug)]
pub struct Headers {
    entries: Vec<(String, String)>,
}

impl View for Headers {
    type V = Map<Seq<char>, Seq<char>>;

    closed spec fn view(&self) -> Map<Seq<char>, Seq<char>> {
        Map::new(
            |name: Seq<char>| self.holds(name),
            |name: Seq<char>| self.entries@[self.place_of(name)].1@,
        )
    }
}

impl Headers {
    #[verifier::type_invariant]
    spec fn names_differ(self) -> bool {
        forall|i: int, j: int|
            0 <= i < j < self.entries@.len() ==> (#[trigger] self.entries@[i]).0@
                != (#[trigger] self.entries@[j]).0@
    }

    /// Whether an entry is stored under `name`.
    spec fn holds(self, name: Seq<char>) -> bool {
        exists|i: int| 0 <= i < self.entries@.len() && (#[trigger] self.entries@[i]).0@ == name
    }

    /// A place at which `name` is stored.
    spec fn place_of(self, name: Seq<char>) -> int {
        choose|i: int| 0 <= i < self.entries@.len() && (#[trigger] self.entries@[i]).0@ == name
    }

    /// Each entry is found under its name.
    proof fn lemma_entries(self)
        requires
            self.names_differ(),
        ensures
            forall|i: int|
                0 <= i < self.entries@.len() ==> self@.contains_key(
                    (#[trigger] self.entries@[i]).0@,
                ) && self@[self.entries@[i].0@] == self.entries@[i].1@,
            forall|name: Seq<char>|
                self@.contains_key(name) ==> 0 <= self.place_of(name) < self.entries@.len()
                    && self.entries@[self.place_of(name)].0@ == name,
    {
        assert forall|i: int| 0 <= i < self.entries@.len() implies self@.contains_key(
            (#[trigger] self.entries@[i]).0@,
        ) && self@[self.entries@[i].0@] == self.entries@[i].1@ by {
            let name = self.entries@[i].0@;
            assert(self.holds(name));
            let place = self.place_of(name);
            assert(self.entries@[place].0@ == name);
            assert(place == i);
        }
    }

    /// Headers without an entry.
    pub fn new() -> (headers: Headers)
        ensures
            headers@ == Map::<Seq<char>, Seq<char>>::empty(),
    {
        let headers = Headers { entries: Vec::new() };
        assert(headers@ =~= Map::<Seq<char>, Seq<char>>::empty());
        headers
    }

    /// Where `name` is stored, if it is.
    fn find(&self, name: &String) -> (place: Option<usize>)
        ensures
            match place {
                Some(i) => i < self.entries@.len() && self.entries@[i as int].0@ == name@,
                None => !self@.contains_key(name@),
            },
    {
        let mut i: usize = 0;
        while i < self.entries.len()
            invariant
                i <= self.entries@.len(),
                forall|j: int| 0 <= j < i ==> (#[trigger] self.entries@[j]).0@ != name@,
            decreases self.entries@.len() - i,
        {
            if self.entries[i].0 == *name {
                return Some(i);
            }
            i += 1;
        }
        None
    }

    /// Stores `value` under `name`, in place of what was stored there.
    pub fn insert(&mut self, name: String, value: String)
        ensures
            final(self)@ == old(self)@.insert(name@, value@),
    {
        proof {
            use_type_invariant(&*self);
            self.lemma_entries();
        }
        let ghost before = *self;
        let place = self.find(&name);
        let mut entries: Vec<(String, String)> = Vec::new();
        core::mem::swap(&mut self.entries, &mut entries);
        match place {
            Some(i) => {
                entries.set(i, (name, value));
                proof {
                    assert forall|a: int, b: int|
                        0 <= a < b < entries@.len() implies (#[trigger] entries@[a]).0@
                        != (#[trigger] entries@[b]).0@ by {
                        assert(before.entries@[a].0@ == entries@[a].0@);
                        assert(before.entries@[b].0@ == entries@[b].0@);
                    }
                }
                self.entries = entries;
                proof {
                    self.lemma_entries();
                    assert forall|key: Seq<char>| self@.contains_key(key) <==> before@.insert(
                        name@,
                        value@,
                    ).contains_key(key) by {
                        if self@.contains_key(key) {
                            let place = self.place_of(key);
                            assert(before.entries@[place].0@ == key);
                        }
                        if before@.contains_key(key) {
                            let place = before.place_of(key);
                            assert(self.entries@[place].0@ == key);
                        }
                    }
                    assert forall|key: Seq<char>| self@.contains_key(key) implies self@[key]
                        == before@.insert(name@, value@)[key] by {
                        let place = self.place_of(key);
                        if place != i {
                            assert(before.entries@[place] == self.entries@[place]);
                        }
                    }
                    assert(self@ =~= before@.insert(name@, value@));
                }
            },
            None => {
                entries.push((name, value));
                proof {
                    let last = entries@.len() - 1;
                    assert forall|a: int, b: int|
                        0 <= a < b < entries@.len() implies (#[trigger] entries@[a]).0@
                        != (#[trigger] entries@[b]).0@ by {
                        assert(before.entries@[a] == entries@[a]);
                        if b < last {
                            assert(before.entries@[b] == entries@[b]);
                        }
                    }
                }
                self.entries = entries;
                proof {
                    let last = self.entries@.len() - 1;
                    self.lemma_entries();
                    assert forall|key: Seq<char>| self@.contains_key(key) <==> before@.insert(
                        name@,
                        value@,
                    ).contains_key(key) by {
                        if self@.contains_key(key) {
                            let place = self.place_of(key);
                            if place < last {
                                assert(before.entries@[place].0@ == key);
                            }
                        }
                        if before@.contains_key(key) {
                            let place = before.place_of(key);
                            assert(self.entries@[place].0@ == key);
                        }
                        if key == name@ {
                            assert(self.entries@[last].0@ == key);
                        }
                    }
                    assert forall|key: Seq<char>| self@.contains_key(key) implies self@[key]
                        == before@.insert(name@, value@)[key] by {
                        let place = self.place_of(key);
                        if place < last {
                            assert(before.entries@[place] == self.entries@[place]);
                        }
                    }
                    assert(self@ =~= before@.insert(name@, value@));
                }
            },
        }
    }

    /// The value stored under `name`.
    pub fn get(&self, name: &str) -> (value: Option<&String>)
        ensures
            match value {
                Some(text) => self@.contains_key(name@) && text@ == self@[name@],
                None => !self@.contains_key(name@),
            },
    {
        proof {
            use_type_invariant(self);
            self.lemma_entries();
        }
        match self.find(&name.to_owned()) {
            Some(i) => Some(&self.entries[i].1),
            None => None,
        }
    }

    /// The number of names.
    pub fn len(&self) -> (count: usize)
        ensures
            self@.dom().finite(),
            count == self@.dom().len(),
    {
        proof {
            use_type_invariant(self);
            self.lemma_entries();
            let names = self.entries@.map_values(|entry: (String, String)| entry.0@);
            assert(names.no_duplicates());
            assert(names.to_set() =~= self@.dom()) by {
                assert forall|name: Seq<char>| names.to_set().contains(name) <==> self@.dom().contains(
                    name,
                ) by {
                    if names.contains(name) {
                        let i = choose|i: int| 0 <= i < names.len() && names[i] == name;
                        assert(self.entries@[i].0@ == name);
                    }
                    if self@.contains_key(name) {
                        assert(names[self.place_of(name)] == name);
                    }
                }
            }
            names.unique_seq_to_set();
        }
        self.entries.len()
    }

    /// Whether there is no entry.
    pub fn is_empty(&self) -> (empty: bool)
        ensures
            empty == (self@ == Map::<Seq<char>, Seq<char>>::empty()),
    {
        proof {
            use_type_invariant(self);
            self.lemma_entries();
            if self.entries@.len() == 0 {
                assert(self@ =~= Map::<Seq<char>, Seq<char>>::empty());
            } else {
                assert(self@.contains_key(self.entries@[0].0@));
            }
        }
        self.entries.len() == 0
    }
}

} // verus!
