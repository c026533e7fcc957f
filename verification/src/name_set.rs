//! A set of names that is kept in ascending order.

use crate::tally::names_view;
use crate::text::{compare, lemma_precedes_asymmetric, lemma_precedes_transitive, precedes, Rank};
use vstd::prelude::*;

verus! {

/// A set of names. The names are held in the order of `precedes`, each once.
#[derive(Debug, PartialEq, Eq)]
pub struct NameSet {
    names: Vec<String>,
}

/// Each name of `names` sorts strictly before the names behind it.
pub open spec fn ascending(names: Seq<Seq<char>>) -> bool {
    forall|i: int, j: int| 0 <= i < j < names.len() ==> precedes(names[i], names[j])
}

/// Names in strictly ascending order are distinct.
pub proof fn lemma_ascending_distinct(names: Seq<Seq<char>>)
    requires
        ascending(names),
    ensures
        names.no_duplicates(),
{
    assert forall|i: int, j: int| 0 <= i < names.len() && 0 <= j < names.len() && i != j implies names[i]
        != names[j] by {
        if i < j {
            lemma_precedes_asymmetric(names[i], names[j]);
        } else {
            lemma_precedes_asymmetric(names[j], names[i]);
        }
    }
}

/// Inserting a name at the place where the order wants it keeps the order, and
/// adds just that name.
pub proof fn lemma_ascending_insert(names: Seq<Seq<char>>, p: int, name: Seq<char>)
    requires
        ascending(names),
        0 <= p <= names.len(),
        forall|i: int| 0 <= i < p ==> precedes(names[i], name),
        p < names.len() ==> precedes(name, names[p]),
    ensures
        ascending(names.insert(p, name)),
        names.insert(p, name).to_set() == names.to_set().insert(name),
{
    let grown = names.insert(p, name);
    assert forall|i: int, j: int| 0 <= i < j < grown.len() implies precedes(grown[i], grown[j]) by {
        if j == p {
            assert(grown[i] == names[i]);
        } else if i == p {
            assert(grown[j] == names[j - 1]);
            if j - 1 > p {
                lemma_precedes_transitive(name, names[p], names[j - 1]);
            }
        } else if i < p && j > p {
            assert(grown[i] == names[i]);
            assert(grown[j] == names[j - 1]);
        } else if i < p {
            assert(grown[i] == names[i] && grown[j] == names[j]);
        } else {
            assert(grown[i] == names[i - 1] && grown[j] == names[j - 1]);
        }
    }
    assert forall|x: Seq<char>| grown.to_set().contains(x) <==> names.to_set().insert(
        name,
    ).contains(x) by {
        if grown.contains(x) {
            let i = choose|i: int| 0 <= i < grown.len() && grown[i] == x;
            if i < p {
                assert(names[i] == x);
            } else if i > p {
                assert(names[i - 1] == x);
            }
        }
        if names.contains(x) {
            let i = choose|i: int| 0 <= i < names.len() && names[i] == x;
            if i < p {
                assert(grown[i] == x);
            } else {
                assert(grown[i + 1] == x);
            }
        }
        if x == name {
            assert(grown[p] == x);
        }
    }
    assert(grown.to_set() =~= names.to_set().insert(name));
}

impl NameSet {
    /// The names of the set.
    pub closed spec fn view(&self) -> Set<Seq<char>> {
        names_view(self.names@).to_set()
    }

    /// The names of the set in the order in which it holds them.
    pub closed spec fn elements(&self) -> Seq<Seq<char>> {
        names_view(self.names@)
    }

    /// The names are held in strictly ascending order.
    pub closed spec fn wf(&self) -> bool {
        ascending(names_view(self.names@))
    }

    /// The elements of a well-formed set ascend, are distinct, and are the
    /// members of the set.
    pub proof fn lemma_elements(&self)
        requires
            self.wf(),
        ensures
            ascending(self.elements()),
            self.elements().no_duplicates(),
            self.elements().to_set() == self@,
            self.elements().len() == self@.len(),
            self@.finite(),
    {
        lemma_ascending_distinct(self.elements());
        self.elements().unique_seq_to_set();
        vstd::seq_lib::seq_to_set_is_finite(self.elements());
    }

    /// The empty set.
    pub fn new() -> (s: NameSet)
        ensures
            s.wf(),
            s@ == Set::<Seq<char>>::empty(),
    {
        let s = NameSet { names: Vec::new() };
        assert(names_view(s.names@) =~= Seq::empty());
        assert(s@ =~= Set::empty());
        s
    }

    /// Adds `name`; answers whether it was new.
    pub fn insert(&mut self, name: String) -> (added: bool)
        requires
            old(self).wf(),
        ensures
            final(self).wf(),
            final(self)@ == old(self)@.insert(name@),
            added == !old(self)@.contains(name@),
    {
        let ghost before = names_view(self.names@);
        let mut p: usize = 0;
        let mut placed = false;
        while !placed && p < self.names.len()
            invariant
                p <= self.names.len(),
                before == names_view(self.names@),
                ascending(before),
                forall|i: int| 0 <= i < p ==> precedes(before[i], name@),
                placed ==> p < self.names.len() && precedes(name@, before[p as int]),
            decreases self.names.len() - p + if placed { 0int } else { 1int },
        {
            let rank = compare(self.names[p].as_str(), name.as_str());
            assert(before[p as int] == self.names[p as int]@);
            match rank {
                Rank::Before => {
                    p = p + 1;
                },
                Rank::Same => {
                    proof {
                        assert(before.contains(name@));
                        assert(before.to_set().insert(name@) =~= before.to_set());
                    }
                    return false;
                },
                Rank::After => {
                    placed = true;
                },
            }
        }
        proof {
            lemma_ascending_insert(before, p as int, name@);
            assert(names_view(self.names@.insert(p as int, name)) =~= before.insert(
                p as int,
                name@,
            ));
            assert(!before.contains(name@)) by {
                if before.contains(name@) {
                    let i = choose|i: int| 0 <= i < before.len() && before[i] == name@;
                    if i < p {
                        lemma_precedes_asymmetric(before[i], name@);
                    } else {
                        if i > p {
                            lemma_precedes_transitive(name@, before[p as int], before[i]);
                        }
                        lemma_precedes_asymmetric(name@, before[i]);
                    }
                }
            }
        }
        self.names.insert(p, name);
        true
    }

    /// A copy of the set.
    pub fn duplicate(&self) -> (r: NameSet)
        requires
            self.wf(),
        ensures
            r.wf(),
            r@ == self@,
            r.elements() == self.elements(),
    {
        NameSet { names: crate::configuration::copy_names(&self.names) }
    }

    /// Whether `name` is in the set.
    pub fn contains(&self, name: &str) -> (r: bool)
        requires
            self.wf(),
        ensures
            r == self@.contains(name@),
    {
        let mut i: usize = 0;
        while i < self.names.len()
            invariant
                i <= self.names.len(),
                forall|j: int| 0 <= j < i ==> self.names[j]@ != name@,
            decreases self.names.len() - i,
        {
            match compare(self.names[i].as_str(), name) {
                Rank::Same => {
                    assert(names_view(self.names@)[i as int] == name@);
                    return true;
                },
                _ => {},
            }
            i = i + 1;
        }
        proof {
            let names = names_view(self.names@);
            if names.contains(name@) {
                let j = choose|j: int| 0 <= j < names.len() && names[j] == name@;
                assert(self.names[j]@ == name@);
            }
        }
        false
    }

    /// The number of names in the set.
    pub fn len(&self) -> (r: usize)
        requires
            self.wf(),
        ensures
            r == self@.len(),
    {
        proof {
            self.lemma_elements();
        }
        self.names.len()
    }

    /// Whether the set is empty.
    pub fn is_empty(&self) -> (r: bool)
        requires
            self.wf(),
        ensures
            r == (self@.len() == 0),
    {
        proof {
            self.lemma_elements();
        }
        self.names.len() == 0
    }

    /// The `i`-th name in ascending order.
    pub fn get(&self, i: usize) -> (r: &String)
        requires
            i < self.elements().len(),
        ensures
            r@ == self.elements()[i as int],
    {
        &self.names[i]
    }
}

} // verus!
