//! Maps keyed by addresses.

use vstd::prelude::*;

verus! {

/// A map keyed by addresses, each of which occurs once.
#[derive(Debug)]
pub struct AddressMap<V> {
    entries: Vec<(String, V)>,
}

impl<V> View for AddressMap<V> {
    type V = Map<Seq<char>, V>;

    closed spec fn view(&self) -> Map<Seq<char>, V> {
        Map::new(
            |key: Seq<char>| exists|i: int| self.is_at(i, key),
            |key: Seq<char>| self.entries@[choose|i: int| self.is_at(i, key)].1,
        )
    }
}

impl<V> AddressMap<V> {
    /// Whether the entry at `i` is that of `key`.
    spec fn is_at(self, i: int, key: Seq<char>) -> bool {
        0 <= i < self.entries@.len() && self.entries@[i].0@ == key
    }

    /// No address occurs twice.
    pub closed spec fn wf(self) -> bool {
        forall|i: int, j: int|
            0 <= i < j < self.entries@.len() ==> #[trigger] self.entries@[i].0@
                != #[trigger] self.entries@[j].0@
    }

    /// An entry's value is that of its address.
    proof fn lemma_entry(self, i: int)
        requires
            self.wf(),
            0 <= i < self.entries@.len(),
        ensures
            self@.contains_key(self.entries@[i].0@),
            self@[self.entries@[i].0@] == self.entries@[i].1,
    {
        let key = self.entries@[i].0@;
        assert(self.is_at(i, key));
        let j = choose|j: int| self.is_at(j, key);
        assert(self.is_at(j, key));
        assert(i == j);
    }

    /// A map without entries.
    pub fn new() -> (map: AddressMap<V>)
        ensures
            map.wf(),
            map@ == Map::<Seq<char>, V>::empty(),
    {
        let map = AddressMap { entries: Vec::new() };
        assert(map@ =~= Map::<Seq<char>, V>::empty());
        map
    }

    /// The addresses in the order in which [`AddressMap::entry`] shows them.
    pub closed spec fn keys(self) -> Seq<Seq<char>> {
        self.entries@.map_values(|e: (String, V)| e.0@)
    }

    /// The order shows each address of the map once.
    pub proof fn lemma_keys(self)
        requires
            self.wf(),
        ensures
            self.keys().no_duplicates(),
            self.keys().to_set() == self@.dom(),
            self@.dom().finite(),
            self@.dom().len() == self.keys().len(),
    {
        let keys = self.keys();
        assert(keys.no_duplicates());
        keys.unique_seq_to_set();
        assert(self@.dom() =~= keys.to_set()) by {
            assert forall|key: Seq<char>| self@.dom().contains(key) implies keys.to_set().contains(
                key,
            ) by {
                let i = choose|i: int| self.is_at(i, key);
                assert(keys[i] == key);
            }
            assert forall|key: Seq<char>| keys.to_set().contains(key) implies self@.dom().contains(
                key,
            ) by {
                let i = choose|i: int| 0 <= i < keys.len() && keys[i] == key;
                self.lemma_entry(i);
            }
        }
    }

    /// The number of entries.
    pub fn len(&self) -> (count: usize)
        requires
            self.wf(),
        ensures
            count == self.keys().len(),
            count == self@.dom().len(),
    {
        proof {
            self.lemma_keys();
        }
        self.entries.len()
    }

    /// The entry at a place in the order.
    pub fn entry(&self, i: usize) -> (entry: (&String, &V))
        requires
            self.wf(),
            i < self.keys().len(),
        ensures
            entry.0@ == self.keys()[i as int],
            self@.contains_key(entry.0@),
            self@[entry.0@] == *entry.1,
    {
        proof {
            self.lemma_entry(i as int);
        }
        (&self.entries[i].0, &self.entries[i].1)
    }

    /// The place of an address.
    fn position(&self, key: &String) -> (place: Option<usize>)
        requires
            self.wf(),
        ensures
            match place {
                Some(i) => i < self.entries@.len() && self.entries@[i as int].0@ == key@
                    && self@.contains_key(key@),
                None => !self@.contains_key(key@) && forall|i: int|
                    0 <= i < self.entries@.len() ==> (#[trigger] self.entries@[i]).0@ != key@,
            },
    {
        let mut i: usize = 0;
        while i < self.entries.len()
            invariant
                self.wf(),
                i <= self.entries@.len(),
                forall|j: int| 0 <= j < i ==> (#[trigger] self.entries@[j]).0@ != key@,
            decreases self.entries.len() - i,
        {
            if self.entries[i].0 == *key {
                proof {
                    self.lemma_entry(i as int);
                }
                return Some(i);
            }
            i = i + 1;
        }
        None
    }

    /// The value of an address.
    pub fn get(&self, key: &String) -> (value: Option<&V>)
        requires
            self.wf(),
        ensures
            match value {
                Some(value) => self@.contains_key(key@) && self@[key@] == *value,
                None => !self@.contains_key(key@),
            },
    {
        match self.position(key) {
            Some(i) => {
                proof {
                    self.lemma_entry(i as int);
                }
                Some(&self.entries[i].1)
            },
            None => None,
        }
    }

    /// Takes the value of an address out of the map.
    pub fn remove(&mut self, key: &String) -> (value: Option<V>)
        requires
            old(self).wf(),
        ensures
            final(self).wf(),
            final(self)@ == old(self)@.remove(key@),
            match value {
                Some(value) => old(self)@.contains_key(key@) && old(self)@[key@] == value,
                None => !old(self)@.contains_key(key@),
            },
    {
        let ghost before = *self;
        match self.position(key) {
            Some(i) => {
                let entry = self.entries.swap_remove(i);
                proof {
                    before.lemma_entry(i as int);
                    let last = before.entries@.len() - 1;
                    assert forall|k: Seq<char>| self@.contains_key(k) == before@.remove(
                        key@,
                    ).contains_key(k) by {
                        if self@.contains_key(k) {
                            let j = choose|j: int| self.is_at(j, k);
                            let from = if j == i { last } else { j };
                            assert(before.is_at(from, k));
                        }
                        if before@.contains_key(k) && k != key@ {
                            let j = choose|j: int| before.is_at(j, k);
                            let to = if j == last { i as int } else { j };
                            assert(self.is_at(to, k));
                        }
                    }
                    assert forall|k: Seq<char>| self@.contains_key(k) implies self@[k]
                        == before@[k] by {
                        let j = choose|j: int| self.is_at(j, k);
                        self.lemma_entry(j);
                        let from = if j == i { last } else { j };
                        before.lemma_entry(from);
                    }
                    assert(self@ =~= before@.remove(key@));
                }
                Some(entry.1)
            },
            None => {
                assert(self@ =~= before@.remove(key@));
                None
            },
        }
    }

    /// Gives an address a value, in place of the one it had.
    pub fn insert(&mut self, key: String, value: V)
        requires
            old(self).wf(),
        ensures
            final(self).wf(),
            final(self)@ == old(self)@.insert(key@, value),
    {
        let ghost start = *self;
        self.remove(&key);
        let ghost before = *self;
        let _place = self.position(&key);
        self.entries.push((key, value));
        proof {
            let last = before.entries@.len() as int;
            assert(self.is_at(last, key@));
            assert(self.wf());
            self.lemma_entry(last);
            assert forall|k: Seq<char>| k != key@ implies self@.contains_key(k)
                == before@.contains_key(k) by {
                if self@.contains_key(k) {
                    let j = choose|j: int| self.is_at(j, k);
                    assert(before.is_at(j, k));
                }
                if before@.contains_key(k) {
                    let j = choose|j: int| before.is_at(j, k);
                    assert(self.is_at(j, k));
                }
            }
            assert forall|k: Seq<char>| k != key@ && self@.contains_key(k) implies self@[k]
                == before@[k] by {
                let j = choose|j: int| self.is_at(j, k);
                self.lemma_entry(j);
                before.lemma_entry(j);
            }
            assert(self@ =~= before@.insert(key@, value));
            assert(start@.remove(key@).insert(key@, value) =~= start@.insert(key@, value));
        }
    }
}

} // verus!
