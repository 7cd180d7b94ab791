//! A map from names to byte strings: what a record holds of the fields
//! parsed out of it, and what the write buffer holds per destination.
use crate::strings::str_eq;
use vstd::prelude::*;

verus! {

/// Byte strings under distinct names. Inserting under a name that is
/// already there replaces its bytes.
pub struct NamedBytes {
    entries: Vec<(String, Vec<u8>)>,
}

impl NamedBytes {
    #[verifier::type_invariant]
    closed spec fn names_distinct(self) -> bool {
        forall|i: int, j: int|
            0 <= i < j < self.entries@.len() ==> self.entries@[i].0@ != self.entries@[j].0@
    }

    closed spec fn holds(self, name: Seq<char>) -> bool {
        exists|i: int| 0 <= i < self.entries@.len() && self.entries@[i].0@ == name
    }

    closed spec fn bytes_of(self, name: Seq<char>) -> Seq<u8> {
        self.entries@[choose|i: int|
            0 <= i < self.entries@.len() && self.entries@[i].0@ == name].1@
    }
}

impl View for NamedBytes {
    type V = Map<Seq<char>, Seq<u8>>;

    closed spec fn view(&self) -> Map<Seq<char>, Seq<u8>> {
        Map::new(|k: Seq<char>| self.holds(k), |k: Seq<char>| self.bytes_of(k))
    }
}

impl NamedBytes {
    /// An empty map.
    pub fn new() -> (r: Self)
        ensures
            r@ == Map::<Seq<char>, Seq<u8>>::empty(),
    {
        let r = NamedBytes { entries: Vec::new() };
        assert(r@ =~= Map::<Seq<char>, Seq<u8>>::empty());
        r
    }

    /// The position of `name`, if it is there.
    fn find(&self, name: &str) -> (r: Option<usize>)
        ensures
            r matches Some(i) ==> i < self.entries@.len() && self.entries@[i as int].0@ == name@,
            r is None ==> !self.holds(name@),
    {
        let mut i: usize = 0;
        while i < self.entries.len()
            invariant
                i <= self.entries@.len(),
                forall|j: int| 0 <= j < i ==> self.entries@[j].0@ != name@,
            decreases self.entries@.len() - i,
        {
            if str_eq(self.entries[i].0.as_str(), name) {
                return Some(i);
            }
            i += 1;
        }
        None
    }

    /// The bytes under `name`, if it is there.
    pub fn get(&self, name: &str) -> (r: Option<&Vec<u8>>)
        ensures
            r is Some <==> self@.contains_key(name@),
            r matches Some(v) ==> v@ == self@[name@],
    {
        proof {
            use_type_invariant(self);
        }
        match self.find(name) {
            Some(i) => {
                proof {
                    let c = choose|j: int|
                        0 <= j < self.entries@.len() && self.entries@[j].0@ == name@;
                    assert(c == i as int);
                }
                Some(&self.entries[i].1)
            },
            None => None,
        }
    }

    /// Puts `value` under `name`, replacing what was there.
    pub fn insert(&mut self, name: String, value: Vec<u8>)
        ensures
            final(self)@ == old(self)@.insert(name@, value@),
    {
        proof {
            use_type_invariant(&*self);
        }
        let ghost before = *self;
        let found = self.find(name.as_str());
        let mut entries: Vec<(String, Vec<u8>)> = Vec::new();
        std::mem::swap(&mut entries, &mut self.entries);
        match found {
            Some(i) => {
                entries.set(i, (name, value));
                self.entries = entries;
                proof {
                    let ghost k = self.entries@[i as int].0@;
                    assert forall|key: Seq<char>| #![auto] self.holds(key) == before.holds(key) by {
                        if before.holds(key) {
                            let j = choose|j: int|
                                0 <= j < before.entries@.len() && before.entries@[j].0@ == key;
                            assert(self.entries@[j].0@ == key);
                        }
                        if self.holds(key) {
                            let j = choose|j: int|
                                0 <= j < self.entries@.len() && self.entries@[j].0@ == key;
                            assert(before.entries@[j].0@ == key);
                        }
                    }
                    assert forall|key: Seq<char>| #![auto]
                        self.holds(key) && key != k implies self.bytes_of(key) == before.bytes_of(
                        key,
                    ) by {
                        let j = choose|j: int|
                            0 <= j < self.entries@.len() && self.entries@[j].0@ == key;
                        let j2 = choose|j: int|
                            0 <= j < before.entries@.len() && before.entries@[j].0@ == key;
                        assert(j == j2);
                    }
                    let c = choose|j: int|
                        0 <= j < self.entries@.len() && self.entries@[j].0@ == k;
                    assert(c == i as int);
                    assert(self@ =~= before@.insert(name@, value@));
                }
            },
            None => {
                entries.push((name, value));
                self.entries = entries;
                proof {
                    let n = before.entries@.len() as int;
                    let k = self.entries@[n].0@;
                    assert forall|key: Seq<char>| #![auto]
                        before.holds(key) implies self.holds(key) && self.bytes_of(key)
                        == before.bytes_of(key) by {
                        let j2 = choose|j: int|
                            0 <= j < before.entries@.len() && before.entries@[j].0@ == key;
                        assert(self.entries@[j2].0@ == key);
                        let j = choose|j: int|
                            0 <= j < self.entries@.len() && self.entries@[j].0@ == key;
                        assert(j == j2);
                    }
                    assert forall|key: Seq<char>| #![auto]
                        self.holds(key) && key != k implies before.holds(key) by {
                        let j = choose|j: int|
                            0 <= j < self.entries@.len() && self.entries@[j].0@ == key;
                        assert(before.entries@[j].0@ == key);
                    }
                    assert(self.entries@[n].0@ == k);
                    let c = choose|j: int|
                        0 <= j < self.entries@.len() && self.entries@[j].0@ == k;
                    assert(c == n);
                    assert(self@ =~= before@.insert(name@, value@));
                }
            },
        }
    }

    /// Removes every name.
    pub fn clear(&mut self)
        ensures
            final(self)@ == Map::<Seq<char>, Seq<u8>>::empty(),
    {
        self.entries = Vec::new();
        assert(self@ =~= Map::<Seq<char>, Seq<u8>>::empty());
    }
}

} // verus!
