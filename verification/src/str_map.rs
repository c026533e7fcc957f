//! A map from names to values that keeps its entries in the order in which
//! the names were first inserted.

use crate::tally::names_view;
use crate::text::same;
use vstd::prelude::*;

verus! {

/// A map keyed by names. Its view is the mathematical map from each name to
/// its value; `keys` and `values` give the entries in insertion order.
#[derive(Debug, PartialEq, Eq)]
pub struct StrMap<V> {
    keys: Vec<String>,
    values: Vec<V>,
}

/// The first position at which `key` stands in `keys`.
pub open spec fn position(keys: Seq<Seq<char>>, key: Seq<char>) -> int {
    choose|i: int| 0 <= i < keys.len() && keys[i] == key
}

impl<V> StrMap<V> {
    /// The names of the entries, in insertion order.
    pub closed spec fn keys(&self) -> Seq<Seq<char>> {
        names_view(self.keys@)
    }

    /// The values of the entries, in insertion order.
    pub closed spec fn values(&self) -> Seq<V> {
        self.values@
    }

    /// Every entry has a name and a value, and no name stands twice.
    pub open spec fn wf(&self) -> bool {
        &&& self.keys().len() == self.values().len()
        &&& self.keys().no_duplicates()
    }

    /// The map from each name to its value.
    pub open spec fn view(&self) -> Map<Seq<char>, V> {
        Map::new(
            |k: Seq<char>| self.keys().contains(k),
            |k: Seq<char>| self.values()[position(self.keys(), k)],
        )
    }

    /// In a well-formed map each name maps to the value that stands beside it,
    /// and the map has as many entries as there are names.
    pub proof fn lemma_view(&self)
        requires
            self.wf(),
        ensures
            self@.dom() == self.keys().to_set(),
            self@.dom().finite(),
            self@.dom().len() == self.keys().len(),
            forall|i: int|
                0 <= i < self.keys().len() ==> self@.dom().contains(#[trigger] self.keys()[i])
                    && self@[self.keys()[i]] == self.values()[i],
    {
        assert(self@.dom() =~= self.keys().to_set());
        vstd::seq_lib::seq_to_set_is_finite(self.keys());
        self.keys().unique_seq_to_set();
        assert forall|i: int| 0 <= i < self.keys().len() implies self@.dom().contains(
            #[trigger] self.keys()[i],
        ) && self@[self.keys()[i]] == self.values()[i] by {
            let j = position(self.keys(), self.keys()[i]);
            assert(j == i);
        }
    }

    /// The empty map.
    pub fn new() -> (m: Self)
        ensures
            m.wf(),
            m.keys() == Seq::<Seq<char>>::empty(),
            m.values() == Seq::<V>::empty(),
            m@ == Map::<Seq<char>, V>::empty(),
    {
        let m = StrMap { keys: Vec::new(), values: Vec::new() };
        assert(m.keys() =~= Seq::empty());
        assert(m@ =~= Map::empty());
        m
    }

    /// The number of entries.
    pub fn len(&self) -> (r: usize)
        ensures
            r == self.keys().len(),
            self.wf() ==> r == self@.dom().len(),
    {
        proof {
            if self.wf() {
                self.lemma_view();
            }
        }
        self.keys.len()
    }

    /// The position of the entry named `key`, if there is one.
    pub fn find(&self, key: &str) -> (r: Option<usize>)
        ensures
            match r {
                Some(i) => i < self.keys().len() && self.keys()[i as int] == key@,
                None => !self.keys().contains(key@),
            },
    {
        let mut i: usize = 0;
        while i < self.keys.len()
            invariant
                i <= self.keys.len(),
                forall|j: int| 0 <= j < i ==> self.keys[j]@ != key@,
            decreases self.keys.len() - i,
        {
            if same(self.keys[i].as_str(), key) {
                assert(self.keys()[i as int] == key@);
                return Some(i);
            }
            i = i + 1;
        }
        proof {
            if self.keys().contains(key@) {
                let j = choose|j: int| 0 <= j < self.keys().len() && self.keys()[j] == key@;
                assert(self.keys[j]@ == key@);
            }
        }
        None
    }

    /// Whether the map has an entry named `key`.
    pub fn contains_key(&self, key: &str) -> (r: bool)
        ensures
            r == self@.dom().contains(key@),
    {
        self.find(key).is_some()
    }

    /// The value of the entry named `key`, if there is one.
    pub fn get(&self, key: &str) -> (r: Option<&V>)
        requires
            self.wf(),
        ensures
            match r {
                Some(v) => self@.dom().contains(key@) && *v == self@[key@],
                None => !self@.dom().contains(key@),
            },
    {
        match self.find(key) {
            Some(i) => {
                proof {
                    self.lemma_view();
                }
                Some(&self.values[i])
            },
            None => None,
        }
    }

    /// The name of the `i`-th entry.
    pub fn key_at(&self, i: usize) -> (r: &String)
        requires
            i < self.keys().len(),
        ensures
            r@ == self.keys()[i as int],
    {
        &self.keys[i]
    }

    /// The value of the `i`-th entry.
    pub fn value_at(&self, i: usize) -> (r: &V)
        requires
            self.wf(),
            i < self.keys().len(),
        ensures
            *r == self.values()[i as int],
    {
        &self.values[i]
    }

    /// The value of the `i`-th entry, to be changed in place.
    pub fn value_mut(&mut self, i: usize) -> (r: &mut V)
        requires
            old(self).wf(),
            i < old(self).keys().len(),
        ensures
            *r == old(self).values()[i as int],
            final(self).keys() == old(self).keys(),
            final(self).values() == old(self).values().update(i as int, *final(r)),
            final(self).wf(),
    {
        &mut self.values[i]
    }

    /// The names and the values of the entries, in insertion order.
    pub fn into_parts(self) -> (r: (Vec<String>, Vec<V>))
        ensures
            names_view(r.0@) == self.keys(),
            r.1@ == self.values(),
    {
        (self.keys, self.values)
    }

    /// The map with the given names and values, entry by entry.
    pub fn from_parts(keys: Vec<String>, values: Vec<V>) -> (m: Self)
        requires
            keys.len() == values.len(),
            names_view(keys@).no_duplicates(),
        ensures
            m.wf(),
            m.keys() == names_view(keys@),
            m.values() == values@,
    {
        StrMap { keys, values }
    }

    /// Adds an entry for a name that the map does not hold yet.
    pub fn insert_new(&mut self, key: String, value: V)
        requires
            old(self).wf(),
            !old(self).keys().contains(key@),
        ensures
            final(self).wf(),
            final(self).keys() == old(self).keys().push(key@),
            final(self).values() == old(self).values().push(value),
            final(self)@ == old(self)@.insert(key@, value),
    {
        let ghost before = *self;
        proof {
            assert(names_view(self.keys@.push(key)) =~= names_view(self.keys@).push(key@));
        }
        self.keys.push(key);
        self.values.push(value);
        proof {
            let after = *self;
            assert(after.keys().no_duplicates()) by {
                assert forall|i: int, j: int|
                    0 <= i < after.keys().len() && 0 <= j < after.keys().len() && i != j implies after.keys()[i]
                    != after.keys()[j] by {
                    if i < before.keys().len() {
                        assert(after.keys()[i] == before.keys()[i]);
                    }
                    if j < before.keys().len() {
                        assert(after.keys()[j] == before.keys()[j]);
                    }
                }
            }
            before.lemma_view();
            after.lemma_view();
            assert forall|k: Seq<char>| after@.dom().contains(k) <==> before@.insert(
                key@,
                value,
            ).dom().contains(k) by {
                if before.keys().contains(k) {
                    let i = choose|i: int| 0 <= i < before.keys().len() && before.keys()[i] == k;
                    assert(after.keys()[i] == k);
                }
                if after.keys().contains(k) {
                    let i = choose|i: int| 0 <= i < after.keys().len() && after.keys()[i] == k;
                    if i < before.keys().len() {
                        assert(before.keys()[i] == k);
                    }
                }
                if k == key@ {
                    assert(after.keys()[after.keys().len() - 1] == k);
                }
            }
            assert forall|k: Seq<char>| after@.dom().contains(k) implies after@[k] == before@.insert(
                key@,
                value,
            )[k] by {
                let i = choose|i: int| 0 <= i < after.keys().len() && after.keys()[i] == k;
                assert(after@[after.keys()[i]] == after.values()[i]);
                if i < before.keys().len() {
                    assert(before.keys()[i] == k);
                    assert(before@[before.keys()[i]] == before.values()[i]);
                }
            }
            assert(after@ =~= before@.insert(key@, value));
        }
    }
}

} // verus!
