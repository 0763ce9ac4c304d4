//! A map from texts to values that keeps the order of first insertion.
use vstd::prelude::*;
use crate::strings::same_text;

verus! {

pub struct TextMap<V> {
    entries: Vec<(String, V)>,
}

pub closed spec fn holds_at<V>(entries: Seq<(String, V)>, key: Seq<char>, i: int) -> bool {
    0 <= i < entries.len() && entries[i].0@ == key
}

impl<V> View for TextMap<V> {
    type V = Map<Seq<char>, V>;

    closed spec fn view(&self) -> Map<Seq<char>, V> {
        Map::new(
            |key: Seq<char>| exists|i: int| holds_at(self.entries@, key, i),
            |key: Seq<char>| self.entries@[choose|i: int| holds_at(self.entries@, key, i)].1,
        )
    }
}

impl<V> TextMap<V> {
    /// No key occurs twice.
    pub closed spec fn well_formed(&self) -> bool {
        forall|i: int, j: int|
            0 <= i < j < self.entries@.len() ==> self.entries@[i].0@ != self.entries@[j].0@
    }

    /// The keys in the order of their first insertion.
    pub closed spec fn keys(&self) -> Seq<Seq<char>> {
        self.entries@.map_values(|entry: (String, V)| entry.0@)
    }

    proof fn lemma_entry(&self, i: int)
        requires
            self.well_formed(),
            0 <= i < self.entries@.len(),
        ensures
            self@.contains_key(self.entries@[i].0@),
            self@[self.entries@[i].0@] == self.entries@[i].1,
    {
        let key = self.entries@[i].0@;
        assert(holds_at(self.entries@, key, i));
        let found = choose|k: int| holds_at(self.entries@, key, k);
        assert(found == i);
    }

    /// The keys are those of the map, each once.
    pub proof fn lemma_keys(&self)
        requires
            self.well_formed(),
        ensures
            self.keys().no_duplicates(),
            forall|key: Seq<char>| self.keys().contains(key) <==> #[trigger] self@.contains_key(key),
    {
        assert forall|key: Seq<char>| self.keys().contains(key) <==> #[trigger] self@.contains_key(
            key,
        ) by {
            if self.keys().contains(key) {
                let i = choose|i: int| 0 <= i < self.keys().len() && self.keys()[i] == key;
                assert(holds_at(self.entries@, key, i));
            }
            if self@.contains_key(key) {
                let i = choose|i: int| holds_at(self.entries@, key, i);
                assert(self.keys()[i] == key);
            }
        }
    }

    /// A key that is put behind others is a new one.
    pub proof fn lemma_next_key<W>(&self, copy: &TextMap<W>, i: int)
        requires
            self.well_formed(),
            copy.well_formed(),
            0 <= i < self.keys().len(),
            copy.keys() == self.keys().take(i),
        ensures
            !copy@.contains_key(self.keys()[i]),
            self@.contains_key(self.keys()[i]),
            forall|k: int| 0 <= k < i ==> self.keys()[k] != self.keys()[i],
            copy.keys().push(self.keys()[i]) == self.keys().take(i + 1),
    {
        self.lemma_keys();
        copy.lemma_keys();
        let key = self.keys()[i];
        assert(self.keys().contains(key));
        if copy@.contains_key(key) {
            let k = choose|k: int| 0 <= k < copy.keys().len() && copy.keys()[k] == key;
            assert(self.keys()[k] == key);
        }
        assert(copy.keys().push(key) =~= self.keys().take(i + 1));
    }

    /// An empty map.
    pub fn new() -> (map: Self)
        ensures
            map.well_formed(),
            map@ == Map::<Seq<char>, V>::empty(),
            map.keys() == Seq::<Seq<char>>::empty(),
    {
        let map = TextMap { entries: Vec::new() };
        assert(map@ =~= Map::empty());
        assert(map.keys() =~= Seq::empty());
        map
    }

    /// Forgets everything.
    pub fn clear(&mut self)
        ensures
            final(self).well_formed(),
            final(self)@ == Map::<Seq<char>, V>::empty(),
            final(self).keys() == Seq::<Seq<char>>::empty(),
    {
        self.entries.clear();
        assert(self@ =~= Map::empty());
        assert(self.keys() =~= Seq::empty());
    }

    fn position(&self, key: &str) -> (found: Option<usize>)
        ensures
            match found {
                Some(i) => holds_at(self.entries@, key@, i as int),
                None => forall|i: int| !#[trigger] holds_at(self.entries@, key@, i),
            },
    {
        let mut i: usize = 0;
        while i < self.entries.len()
            invariant
                i <= self.entries@.len(),
                forall|k: int| 0 <= k < i ==> !#[trigger] holds_at(self.entries@, key@, k),
            decreases self.entries@.len() - i,
        {
            if same_text(self.entries[i].0.as_str(), key) {
                return Some(i);
            }
            i += 1;
        }
        None
    }

    /// The value for a key, where there is one.
    pub fn get(&self, key: &str) -> (value: Option<&V>)
        requires
            self.well_formed(),
        ensures
            match value {
                Some(value) => self@.contains_key(key@) && self@[key@] == *value,
                None => !self@.contains_key(key@),
            },
    {
        match self.position(key) {
            Some(i) => {
                proof {
                    self.lemma_entry(i as int);
                }
                Some(&self.entries[i].1)
            },
            None => None,
        }
    }

    /// How many keys there are.
    pub fn len(&self) -> (count: usize)
        ensures
            count == self.keys().len(),
    {
        self.entries.len()
    }

    /// The key and the value at a place of the order.
    pub fn entry(&self, i: usize) -> (entry: (&String, &V))
        requires
            self.well_formed(),
            i < self.keys().len(),
        ensures
            entry.0@ == self.keys()[i as int],
            self@.contains_key(entry.0@),
            *entry.1 == self@[entry.0@],
    {
        proof {
            self.lemma_entry(i as int);
        }
        (&self.entries[i].0, &self.entries[i].1)
    }

    /// The value for a key, to be changed in place.
    pub fn get_mut(&mut self, key: &str) -> (value: Option<&mut V>)
        requires
            old(self).well_formed(),
        ensures
            final(self).well_formed(),
            final(self).keys() == old(self).keys(),
            match value {
                Some(value) => {
                    &&& old(self)@.contains_key(key@)
                    &&& *value == old(self)@[key@]
                    &&& final(self)@ == old(self)@.insert(key@, *final(value))
                },
                None => !old(self)@.contains_key(key@) && final(self)@ == old(self)@,
            },
    {
        match self.position(key) {
            None => None,
            Some(i) => {
                proof {
                    self.lemma_entry(i as int);
                }
                let ghost before = *self;
                proof {
                    assert forall|after: Self, value: V|
                        #![trigger after.view(), before.view().insert(key@, value)]
                        after.entries@ == before.entries@.update(
                            i as int,
                            (before.entries@[i as int].0, value),
                        ) implies after@ == before@.insert(key@, value) by {
                        Self::lemma_changed(before, after, i as int, value);
                    }
                }
                Some(&mut self.entries[i].1)
            },
        }
    }

    proof fn lemma_changed(before: Self, after: Self, i: int, value: V)
        requires
            before.well_formed(),
            0 <= i < before.entries@.len(),
            after.entries@ == before.entries@.update(i, (before.entries@[i].0, value)),
        ensures
            after.well_formed(),
            after.keys() == before.keys(),
            after@ == before@.insert(before.entries@[i].0@, value),
    {
        let key = before.entries@[i].0@;
        assert forall|a: int, b: int| 0 <= a < b < after.entries@.len() implies after.entries@[a].0@
            != after.entries@[b].0@ by {
            assert(before.entries@[a].0@ != before.entries@[b].0@);
        }
        assert(after.keys() =~= before.keys());
        let wanted = before@.insert(key, value);
        assert forall|k: Seq<char>| after@.contains_key(k) <==> wanted.contains_key(k) by {
            if after@.contains_key(k) {
                let j = choose|j: int| holds_at(after.entries@, k, j);
                assert(holds_at(before.entries@, k, j));
            }
            if wanted.contains_key(k) {
                if k == key {
                    assert(holds_at(after.entries@, k, i));
                } else {
                    let j = choose|j: int| holds_at(before.entries@, k, j);
                    assert(holds_at(after.entries@, k, j));
                }
            }
        }
        assert forall|k: Seq<char>| after@.contains_key(k) implies after@[k] == wanted[k] by {
            let j = choose|j: int| holds_at(after.entries@, k, j);
            after.lemma_entry(j);
            before.lemma_entry(j);
        }
        assert(after@ =~= wanted);
    }

    /// Keeps a value for a key, in place of what was there.
    pub fn insert(&mut self, key: String, value: V)
        requires
            old(self).well_formed(),
        ensures
            final(self).well_formed(),
            final(self)@ == old(self)@.insert(key@, value),
            final(self).keys() == if old(self)@.contains_key(key@) {
                old(self).keys()
            } else {
                old(self).keys().push(key@)
            },
    {
        let ghost name = key@;
        let ghost before = *self;
        let at: Option<usize> = self.position(key.as_str());
        let ghost place = match at {
            Some(i) => i as int,
            None => self.entries@.len() as int,
        };
        match at {
            Some(i) => {
                self.entries.set(i, (key, value));
            },
            None => {
                self.entries.push((key, value));
            },
        }
        proof {
            let after = *self;
            assert(after.entries@[place].0@ == name && after.entries@[place].1 == value);
            assert(forall|i: int|
                0 <= i < before.entries@.len() && i != place ==> #[trigger] before.entries@[i].0@
                    != name) by {
                if at is None {
                    assert forall|i: int| 0 <= i < before.entries@.len() implies
                        #[trigger] before.entries@[i].0@ != name by {
                        assert(!holds_at(before.entries@, name, i));
                    }
                }
            }
            assert forall|i: int, j: int| 0 <= i < j < after.entries@.len() implies
                after.entries@[i].0@ != after.entries@[j].0@ by {
                if i != place {
                    assert(after.entries@[i].0@ == before.entries@[i].0@);
                }
                if j != place {
                    assert(after.entries@[j].0@ == before.entries@[j].0@);
                }
            }
            assert(after.well_formed());
            let wanted = before@.insert(name, value);
            assert forall|k: Seq<char>| after@.contains_key(k) <==> wanted.contains_key(k) by {
                if after@.contains_key(k) {
                    let i = choose|i: int| holds_at(after.entries@, k, i);
                    if i != place {
                        assert(holds_at(before.entries@, k, i));
                    }
                }
                if wanted.contains_key(k) {
                    if k == name {
                        assert(holds_at(after.entries@, k, place));
                    } else {
                        let i = choose|i: int| holds_at(before.entries@, k, i);
                        assert(holds_at(after.entries@, k, i));
                    }
                }
            }
            assert forall|k: Seq<char>| after@.contains_key(k) implies after@[k] == wanted[k] by {
                let i = choose|i: int| holds_at(after.entries@, k, i);
                after.lemma_entry(i);
                if i != place {
                    before.lemma_entry(i);
                }
            }
            assert(after@ =~= wanted);
            if at is Some {
                assert(holds_at(before.entries@, name, place));
                assert(after.keys() =~= before.keys());
            } else {
                assert(!before@.contains_key(name));
                assert(after.keys() =~= before.keys().push(name));
            }
        }
    }
}

impl<V: Copy> TextMap<V> {
    /// A copy.
    pub fn duplicate(&self) -> (copy: Self)
        requires
            self.well_formed(),
        ensures
            copy.well_formed(),
            copy@ == self@,
            copy.keys() == self.keys(),
    {
        let mut copy: TextMap<V> = TextMap::new();
        let total: usize = self.len();
        let mut i: usize = 0;
        assert(self.keys().take(0) =~= Seq::empty());
        while i < total
            invariant
                self.well_formed(),
                copy.well_formed(),
                i <= total == self.keys().len(),
                copy.keys() == self.keys().take(i as int),
                forall|k: int|
                    0 <= k < i ==> copy@[#[trigger] self.keys()[k]] == self@[self.keys()[k]],
            decreases total - i,
        {
            proof {
                self.lemma_next_key(&copy, i as int);
            }
            let (key, value) = self.entry(i);
            copy.insert(key.clone(), *value);
            i += 1;
        }
        proof {
            assert(self.keys().take(total as int) =~= self.keys());
            self.lemma_keys();
            copy.lemma_keys();
            assert forall|key: Seq<char>| self@.contains_key(key) implies copy@[key] == self@[key] by {
                let k = choose|k: int| 0 <= k < self.keys().len() && self.keys()[k] == key;
                assert(copy@[self.keys()[k]] == self@[self.keys()[k]]);
            }
            assert(copy@ =~= self@);
        }
        copy
    }
}

} // verus!
