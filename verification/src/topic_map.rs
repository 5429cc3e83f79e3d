//! A map from texts to values that keeps its entries in the order in which
//! their keys first came.

use crate::text::same_text;
use vstd::prelude::*;

verus! {

/// A map keyed by text. No key occurs twice, and a key keeps its place until
/// it is removed.
pub struct TopicMap<V> {
    keys: Vec<String>,
    values: Vec<V>,
}

impl<V> TopicMap<V> {
    /// The keys in the order in which they were first inserted.
    pub closed spec fn keys(&self) -> Seq<Seq<char>> {
        self.keys@.map_values(|k: String| k@)
    }

    /// The values, each at the place of its key.
    pub closed spec fn values(&self) -> Seq<V> {
        self.values@
    }

    /// Every key has one value, and no key occurs twice.
    pub open spec fn wf(&self) -> bool {
        &&& self.keys().len() == self.values().len()
        &&& self.keys().no_duplicates()
    }

    /// The place of `key`, or -1 where the map does not hold it.
    pub open spec fn index_of(&self, key: Seq<char>) -> int {
        self.keys().index_of_first(key).unwrap_or(-1)
    }

    /// The map as a mathematical map.
    pub open spec fn view(&self) -> Map<Seq<char>, V> {
        Map::new(|k: Seq<char>| self.keys().contains(k), |k: Seq<char>| self.values()[self.keys().index_of(k)])
    }

    /// What holds of a well-formed map: the view has exactly the listed keys,
    /// each with the value at its place.
    pub proof fn lemma_view(&self)
        requires
            self.wf(),
        ensures
            self@.dom() == self.keys().to_set(),
            self@.dom().finite(),
            self@.len() == self.keys().len(),
            forall|i: int|
                0 <= i < self.keys().len() ==> self@.contains_key(#[trigger] self.keys()[i]) && self@[self.keys()[i]]
                    == self.values()[i],
            forall|k: Seq<char>| self@.contains_key(k) <==> self.keys().contains(k),
    {
        let keys = self.keys();
        assert(self@.dom() =~= keys.to_set());
        keys.unique_seq_to_set();
        vstd::seq_lib::seq_to_set_is_finite(keys);
        assert forall|i: int| 0 <= i < keys.len() implies self@.contains_key(#[trigger] keys[i]) && self@[keys[i]]
            == self.values()[i] by {
            assert(keys.contains(keys[i]));
            keys.index_of_first_ensures(keys[i]);
            let j = keys.index_of(keys[i]);
            assert(keys[j] == keys[i]);
        }
    }

    /// A map without entries.
    pub fn new() -> (map: Self)
        ensures
            map.wf(),
            map@ == Map::<Seq<char>, V>::empty(),
            map.keys().len() == 0,
    {
        let map = TopicMap { keys: Vec::new(), values: Vec::new() };
        assert(map.keys() =~= Seq::<Seq<char>>::empty());
        assert(map@ =~= Map::<Seq<char>, V>::empty());
        map
    }

    /// How many keys the map holds.
    pub fn len(&self) -> (n: usize)
        requires
            self.wf(),
        ensures
            n == self.keys().len(),
            n == self@.len(),
    {
        proof {
            self.lemma_view();
        }
        self.keys.len()
    }

    /// Whether the map holds no key.
    pub fn is_empty(&self) -> (yes: bool)
        requires
            self.wf(),
        ensures
            yes == (self.keys().len() == 0),
            yes == (self@ == Map::<Seq<char>, V>::empty()),
    {
        proof {
            self.lemma_view();
            if self.keys().len() == 0 {
                assert(self@ =~= Map::<Seq<char>, V>::empty());
            } else {
                assert(self@.contains_key(self.keys()[0]));
            }
        }
        self.keys.len() == 0
    }

    /// The place of `key` among the keys.
    pub fn position(&self, key: &str) -> (at: Option<usize>)
        requires
            self.wf(),
        ensures
            match at {
                Some(i) => i < self.keys().len() && self.keys()[i as int] == key@ && self@.contains_key(key@)
                    && self@[key@] == self.values()[i as int],
                None => !self@.contains_key(key@) && !self.keys().contains(key@),
            },
    {
        proof {
            self.lemma_view();
        }
        let mut i: usize = 0;
        while i < self.keys.len()
            invariant
                self.wf(),
                i <= self.keys.len(),
                forall|k: int| 0 <= k < i ==> self.keys()[k] != key@,
            decreases self.keys.len() - i,
        {
            assert(self.keys()[i as int] == self.keys@[i as int]@);
            if same_text(self.keys[i].as_str(), key) {
                proof {
                    self.lemma_view();
                }
                return Some(i);
            }
            i += 1;
        }
        None
    }

    /// Whether the map holds `key`.
    pub fn contains_key(&self, key: &str) -> (yes: bool)
        requires
            self.wf(),
        ensures
            yes == self@.contains_key(key@),
    {
        self.position(key).is_some()
    }

    /// The value of `key`.
    pub fn get(&self, key: &str) -> (value: Option<&V>)
        requires
            self.wf(),
        ensures
            match value {
                Some(v) => self@.contains_key(key@) && *v == self@[key@],
                None => !self@.contains_key(key@),
            },
    {
        match self.position(key) {
            Some(i) => Some(&self.values[i]),
            None => None,
        }
    }

    /// The key at place `i`.
    pub fn key_at(&self, i: usize) -> (key: &String)
        requires
            self.wf(),
            i < self.keys().len(),
        ensures
            key@ == self.keys()[i as int],
            self@.contains_key(key@),
    {
        proof {
            self.lemma_view();
        }
        &self.keys[i]
    }

    /// The value at place `i`.
    pub fn value_at(&self, i: usize) -> (value: &V)
        requires
            self.wf(),
            i < self.keys().len(),
        ensures
            *value == self.values()[i as int],
            *value == self@[self.keys()[i as int]],
    {
        proof {
            self.lemma_view();
        }
        &self.values[i]
    }

    /// The value at place `i`, to be changed in place.
    pub fn value_mut(&mut self, i: usize) -> (value: &mut V)
        requires
            old(self).wf(),
            i < old(self).keys().len(),
        ensures
            *value == old(self).values()[i as int],
            final(self).wf(),
            final(self).keys() == old(self).keys(),
            final(self).values() == old(self).values().update(i as int, *final(value)),
            final(self)@ == old(self)@.insert(old(self).keys()[i as int], *final(value)),
    {
        let ghost before = *self;
        let ghost keys = self.keys();
        proof {
            before.lemma_view();
            assert forall|after: TopicMap<V>|
                after.keys() == keys && after.values() == before.values().update(
                    i as int,
                    after.values()[i as int],
                ) implies #[trigger] after@ == before@.insert(keys[i as int], after.values()[i as int]) by {
                let v = after.values()[i as int];
                after.lemma_view();
                assert forall|k: Seq<char>| #[trigger] after@.contains_key(k) implies after@[k] == before@.insert(
                    keys[i as int],
                    v,
                )[k] by {
                    keys.index_of_first_ensures(k);
                }
                assert(after@ =~= before@.insert(keys[i as int], v));
            }
        }
        &mut self.values[i]
    }

    /// Gives `key` the value `value`: in place where the map holds the key,
    /// else as a new last entry.
    pub fn insert(&mut self, key: String, value: V)
        requires
            old(self).wf(),
        ensures
            final(self).wf(),
            final(self)@ == old(self)@.insert(key@, value),
            old(self)@.contains_key(key@) ==> final(self).keys() == old(self).keys(),
            !old(self)@.contains_key(key@) ==> final(self).keys() == old(self).keys().push(key@),
    {
        let ghost before = *self;
        proof {
            before.lemma_view();
        }
        match self.position(key.as_str()) {
            Some(i) => {
                self.values.set(i, value);
                proof {
                    assert(self.keys() == before.keys());
                    self.lemma_view();
                    assert forall|k: Seq<char>| #[trigger] self@.contains_key(k) implies self@[k] == before@.insert(
                        key@,
                        value,
                    )[k] by {
                        let j = self.keys().index_of(k);
                        before.keys().index_of_first_ensures(k);
                    }
                    assert(self@ =~= before@.insert(key@, value));
                }
            },
            None => {
                let ghost text = key@;
                self.keys.push(key);
                self.values.push(value);
                proof {
                    assert(self.keys() =~= before.keys().push(text));
                    assert(self.keys().no_duplicates());
                    self.lemma_view();
                    assert forall|k: Seq<char>| #[trigger] self@.contains_key(k) implies self@[k] == before@.insert(
                        text,
                        value,
                    )[k] by {
                        let j = self.keys().index_of(k);
                        self.keys().index_of_first_ensures(k);
                        if k != text {
                            assert(before.keys()[j] == k);
                            assert(before@.contains_key(before.keys()[j]));
                        }
                    }
                    assert forall|k: Seq<char>| before@.insert(text, value).contains_key(k) implies self@.contains_key(
                        k,
                    ) by {
                        if k != text {
                            let j = before.keys().index_of(k);
                            before.keys().index_of_first_ensures(k);
                            assert(self.keys()[j] == k);
                        } else {
                            assert(self.keys()[before.keys().len() as int] == text);
                        }
                    }
                    assert(self@ =~= before@.insert(text, value));
                }
            },
        }
    }

    /// Takes `key` and its value out of the map; the entries behind it move up.
    pub fn remove(&mut self, key: &str) -> (value: Option<V>)
        requires
            old(self).wf(),
        ensures
            final(self).wf(),
            final(self)@ == old(self)@.remove(key@),
            match value {
                Some(v) => old(self)@.contains_key(key@) && v == old(self)@[key@] && final(self).keys() == old(
                    self,
                ).keys().remove(old(self).index_of(key@)),
                None => !old(self)@.contains_key(key@) && final(self).keys() == old(self).keys(),
            },
    {
        let ghost before = *self;
        proof {
            before.lemma_view();
            before.keys().index_of_first_ensures(key@);
        }
        match self.position(key) {
            Some(i) => {
                let _gone = self.keys.remove(i);
                let value = self.values.remove(i);
                proof {
                    assert(before.index_of(key@) == i);
                    assert(self.keys() =~= before.keys().remove(i as int));
                    assert(self.keys().no_duplicates()) by {
                        assert forall|a: int, b: int|
                            0 <= a < self.keys().len() && 0 <= b < self.keys().len() && a != b implies self.keys()[a]
                            != self.keys()[b] by {
                            let a0 = if a < i { a } else { a + 1 };
                            let b0 = if b < i { b } else { b + 1 };
                            assert(self.keys()[a] == before.keys()[a0]);
                            assert(self.keys()[b] == before.keys()[b0]);
                        }
                    }
                    self.lemma_view();
                    assert forall|k: Seq<char>| #[trigger] self@.contains_key(k) implies before@.remove(
                        key@,
                    ).contains_key(k) && self@[k] == before@.remove(key@)[k] by {
                        let j = self.keys().index_of(k);
                        self.keys().index_of_first_ensures(k);
                        let j0 = if j < i { j } else { j + 1 };
                        assert(before.keys()[j0] == k);
                        assert(before@.contains_key(before.keys()[j0]));
                        assert(self.values()[j] == before.values()[j0]);
                    }
                    assert forall|k: Seq<char>| before@.remove(key@).contains_key(k) implies self@.contains_key(
                        k,
                    ) by {
                        let j0 = before.keys().index_of(k);
                        before.keys().index_of_first_ensures(k);
                        let j = if j0 < i { j0 } else { j0 - 1 };
                        assert(self.keys()[j] == k);
                    }
                    assert(self@ =~= before@.remove(key@));
                }
                Some(value)
            },
            None => {
                proof {
                    assert(self@ =~= before@.remove(key@));
                }
                None
            },
        }
    }
}

} // verus!
