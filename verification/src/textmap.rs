//! A map whose keys are strings.
use crate::text::{same_text, views};
use vstd::prelude::*;

verus! {

/// A map whose keys are strings. Its entries stand in the order in which their keys came.
pub struct TextMap<V> {
    pub entries: Vec<(String, V)>,
}

impl<V> View for TextMap<V> {
    type V = Map<Seq<char>, V>;

    open spec fn view(&self) -> Map<Seq<char>, V> {
        Map::new(
            |key: Seq<char>| self.holds(key),
            |key: Seq<char>| self.entries@[self.index_of(key)].1,
        )
    }
}

impl<V> TextMap<V> {
    /// Whether entry `i` has this key.
    pub open spec fn is_at(self, i: int, key: Seq<char>) -> bool {
        0 <= i < self.entries@.len() && self.entries@[i].0@ == key
    }

    /// Whether some entry has this key.
    pub open spec fn holds(self, key: Seq<char>) -> bool {
        exists|i: int| #[trigger] self.is_at(i, key)
    }

    /// The entry that has this key.
    pub open spec fn index_of(self, key: Seq<char>) -> int {
        choose|i: int| #[trigger] self.is_at(i, key)
    }

    /// No two entries have the same key.
    pub open spec fn wf(self) -> bool {
        forall|i: int, j: int|
            0 <= i < self.entries@.len() && 0 <= j < self.entries@.len()
                && #[trigger] self.entries@[i].0@ == #[trigger] self.entries@[j].0@ ==> i == j
    }

    /// What entry `i` holds is what the map holds for its key.
    pub proof fn lemma_entry(self, i: int)
        requires
            self.wf(),
            0 <= i < self.entries@.len(),
        ensures
            self@.contains_key(self.entries@[i].0@),
            self@[self.entries@[i].0@] == self.entries@[i].1,
    {
        let key = self.entries@[i].0@;
        assert(self.is_at(i, key));
        let j = self.index_of(key);
        assert(self.is_at(j, key));
        assert(self.entries@[i].0@ == self.entries@[j].0@);
    }

    /// What the map holds for a key stands in one of its entries.
    pub proof fn lemma_key(self, key: Seq<char>)
        requires
            self.wf(),
            self@.contains_key(key),
        ensures
            0 <= self.index_of(key) < self.entries@.len(),
            self.entries@[self.index_of(key)].0@ == key,
            self.entries@[self.index_of(key)].1 == self@[key],
    {
        assert(self.is_at(self.index_of(key), key));
    }

    /// There are as many keys as entries.
    pub proof fn lemma_len(self)
        requires
            self.wf(),
        ensures
            self@.dom().finite(),
            self@.dom().len() == self.entries@.len(),
            Seq::new(self.entries@.len(), |i: int| self.entries@[i].0@).no_duplicates(),
            Seq::new(self.entries@.len(), |i: int| self.entries@[i].0@).to_set() == self@.dom(),
    {
        let keys = Seq::new(self.entries@.len(), |i: int| self.entries@[i].0@);
        assert(keys.no_duplicates()) by {
            assert forall|i: int, j: int|
                0 <= i < keys.len() && 0 <= j < keys.len() && i != j implies keys[i]
                != keys[j] by {
                if keys[i] == keys[j] {
                    assert(self.entries@[i].0@ == self.entries@[j].0@);
                }
            }
        }
        assert forall|key: Seq<char>| keys.to_set().contains(key) == self@.dom().contains(key) by {
            if self@.contains_key(key) {
                self.lemma_key(key);
                assert(keys[self.index_of(key)] == key);
            }
            if keys.contains(key) {
                let i = choose|i: int| 0 <= i < keys.len() && keys[i] == key;
                self.lemma_entry(i);
            }
        }
        assert(keys.to_set() == self@.dom());
        keys.unique_seq_to_set();
    }

    /// The empty map.
    pub fn new() -> (map: TextMap<V>)
        ensures
            map.wf(),
            map@ == Map::<Seq<char>, V>::empty(),
            map.entries@.len() == 0,
    {
        let map: TextMap<V> = TextMap { entries: Vec::new() };
        assert(map@ == Map::<Seq<char>, V>::empty()) by {
            assert forall|key: Seq<char>| !map@.contains_key(key) by {}
        }
        map
    }

    /// The entry that has this key, if there is one.
    pub fn position(&self, key: &str) -> (found: Option<usize>)
        requires
            self.wf(),
        ensures
            match found {
                Some(i) => self.is_at(i as int, key@) && self@.contains_key(key@) && self@[key@]
                    == self.entries@[i as int].1,
                None => !self@.contains_key(key@),
            },
    {
        let mut i: usize = 0;
        while i < self.entries.len()
            invariant
                self.wf(),
                i <= self.entries@.len(),
                forall|j: int| 0 <= j < i ==> #[trigger] self.entries@[j].0@ != key@,
            decreases self.entries@.len() - i,
        {
            if same_text(&self.entries[i].0, key) {
                proof {
                    self.lemma_entry(i as int);
                }
                return Some(i);
            }
            i = i + 1;
        }
        assert(!self@.contains_key(key@)) by {
            if self@.contains_key(key@) {
                self.lemma_key(key@);
            }
        }
        None
    }

    /// What the map holds for a key.
    pub fn get(&self, key: &str) -> (found: Option<&V>)
        requires
            self.wf(),
        ensures
            match found {
                Some(value) => self@.contains_key(key@) && self@[key@] == *value,
                None => !self@.contains_key(key@),
            },
    {
        match self.position(key) {
            Some(i) => Some(&self.entries[i].1),
            None => None,
        }
    }

    /// Whether the map holds something for a key.
    pub fn contains(&self, key: &str) -> (found: bool)
        requires
            self.wf(),
        ensures
            found == self@.contains_key(key@),
    {
        match self.position(key) {
            Some(_) => true,
            None => false,
        }
    }

    /// The keys, in the order in which they came.
    pub fn keys(&self) -> (keys: Vec<String>)
        requires
            self.wf(),
        ensures
            views(keys@).no_duplicates(),
            views(keys@).to_set() == self@.dom(),
    {
        let mut keys: Vec<String> = Vec::new();
        let mut i: usize = 0;
        while i < self.entries.len()
            invariant
                i <= self.entries@.len(),
                keys@.len() == i,
                forall|j: int| 0 <= j < i ==> #[trigger] keys@[j]@ == self.entries@[j].0@,
            decreases self.entries@.len() - i,
        {
            keys.push(self.entries[i].0.clone());
            i = i + 1;
        }
        proof {
            self.lemma_len();
            assert(views(keys@) == Seq::new(
                self.entries@.len(),
                |i: int| self.entries@[i].0@,
            ));
        }
        keys
    }

    /// Makes the map hold `value` for a key, in place of what it held.
    pub fn insert(&mut self, key: String, value: V)
        requires
            old(self).wf(),
        ensures
            final(self).wf(),
            final(self)@ == old(self)@.insert(key@, value),
    {
        match self.get_mut(&key) {
            Some(slot) => {
                *slot = value;
            },
            None => {
                let ghost before = *self;
                let ghost k = key@;
                assert(forall|i: int|
                    0 <= i < before.entries@.len() ==> #[trigger] before.entries@[i].0@ != k) by {
                    assert forall|i: int| 0 <= i < before.entries@.len() implies
                        #[trigger] before.entries@[i].0@ != k by {
                        before.lemma_entry(i);
                    }
                }
                self.entries.push((key, value));
                proof {
                    let after = *self;
                    assert(after.wf());
                    assert(after@ == before@.insert(k, value)) by {
                        after.lemma_entry(before.entries@.len() as int);
                        assert forall|other: Seq<char>|
                            #[trigger] after@.contains_key(other) == before@.insert(
                                k,
                                value,
                            ).contains_key(other) && (after@.contains_key(other) ==> after@[other]
                                == before@.insert(k, value)[other]) by {
                            if after@.contains_key(other) {
                                after.lemma_key(other);
                                if other != k {
                                    before.lemma_entry(after.index_of(other));
                                }
                            }
                            if before@.contains_key(other) {
                                before.lemma_key(other);
                                after.lemma_entry(before.index_of(other));
                            }
                        }
                    }
                }
            },
        }
    }

    /// What the map holds for a key, to be changed in place.
    pub fn get_mut(&mut self, key: &str) -> (found: Option<&mut V>)
        requires
            old(self).wf(),
        ensures
            match found {
                Some(value) => {
                    &&& old(self)@.contains_key(key@)
                    &&& *value == old(self)@[key@]
                    &&& final(self)@ == old(self)@.insert(key@, *final(value))
                    &&& final(self).wf()
                },
                None => !old(self)@.contains_key(key@) && *final(self) == *old(self),
            },
    {
        match self.position(key) {
            Some(i) => {
                proof {
                    Self::lemma_replaced(*old(self), i as int);
                }
                Some(&mut self.entries[i].1)
            },
            None => None,
        }
    }

    /// Giving an entry another value changes the map for its key alone.
    proof fn lemma_replaced(before: TextMap<V>, i: int)
        requires
            before.wf(),
            0 <= i < before.entries@.len(),
        ensures
            forall|after: TextMap<V>, value: V|
                after.entries@ == before.entries@.update(i, (before.entries@[i].0, value)) ==> {
                    &&& #[trigger] after@ == #[trigger] before@.insert(
                        before.entries@[i].0@,
                        value,
                    )
                    &&& after.wf()
                },
    {
        let k = before.entries@[i].0@;
        assert forall|after: TextMap<V>, value: V|
            after.entries@ == before.entries@.update(i, (before.entries@[i].0, value)) implies {
            &&& #[trigger] after@ == #[trigger] before@.insert(k, value)
            &&& after.wf()
        } by {
            assert(after.wf()) by {
                assert forall|a: int, b: int|
                    0 <= a < after.entries@.len() && 0 <= b < after.entries@.len()
                        && #[trigger] after.entries@[a].0@ == #[trigger] after.entries@[b].0@ implies a
                    == b by {
                    assert(before.entries@[a].0@ == before.entries@[b].0@);
                }
            }
            after.lemma_entry(i);
            assert forall|other: Seq<char>|
                #[trigger] after@.contains_key(other) == before@.insert(k, value).contains_key(
                    other,
                ) && (after@.contains_key(other) ==> after@[other] == before@.insert(
                    k,
                    value,
                )[other]) by {
                if after@.contains_key(other) {
                    after.lemma_key(other);
                    before.lemma_entry(after.index_of(other));
                }
                if before@.contains_key(other) {
                    before.lemma_key(other);
                    after.lemma_entry(before.index_of(other));
                }
            }
            assert(after@ == before@.insert(k, value));
        }
    }

    /// Takes out what the map holds for a key.
    pub fn remove(&mut self, key: &str) -> (removed: Option<V>)
        requires
            old(self).wf(),
        ensures
            final(self).wf(),
            final(self)@ == old(self)@.remove(key@),
            match removed {
                Some(value) => old(self)@.contains_key(key@) && old(self)@[key@] == value,
                None => !old(self)@.contains_key(key@) && *final(self) == *old(self),
            },
    {
        match self.position(key) {
            Some(i) => {
                let ghost before = *self;
                let (_, value) = self.entries.remove(i);
                proof {
                    let after = *self;
                    let at = |j: int| if j < i {
                        j
                    } else {
                        j + 1
                    };
                    assert forall|j: int| 0 <= j < after.entries@.len() implies
                        #[trigger] after.entries@[j] == before.entries@[at(j)] by {}
                    assert(after.wf()) by {
                        assert forall|a: int, b: int|
                            0 <= a < after.entries@.len() && 0 <= b < after.entries@.len()
                                && #[trigger] after.entries@[a].0@
                                == #[trigger] after.entries@[b].0@ implies a == b by {
                            assert(before.entries@[at(a)].0@ == before.entries@[at(b)].0@);
                        }
                    }
                    assert(after@ == before@.remove(key@)) by {
                        assert forall|other: Seq<char>|
                            #[trigger] after@.contains_key(other) == before@.remove(
                                key@,
                            ).contains_key(other) && (after@.contains_key(other) ==> after@[other]
                                == before@.remove(key@)[other]) by {
                            if after@.contains_key(other) {
                                after.lemma_key(other);
                                let j = at(after.index_of(other));
                                before.lemma_entry(j);
                                if other == key@ {
                                    assert(before.entries@[j].0@ == before.entries@[i as int].0@);
                                }
                            }
                            if before@.contains_key(other) && other != key@ {
                                before.lemma_key(other);
                                let j = before.index_of(other);
                                let moved = if j < i {
                                    j
                                } else {
                                    j - 1
                                };
                                after.lemma_entry(moved);
                            }
                        }
                    }
                }
                Some(value)
            },
            None => {
                assert(self@.remove(key@) == self@);
                None
            },
        }
    }
}

} // verus!
