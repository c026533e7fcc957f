//! A tally counts how often each name was seen. Its view is the multiset of
//! the names that were counted.

use crate::text::same;
use vstd::multiset::*;
use vstd::prelude::*;

verus! {

/// Counts of names, kept in the order in which the names were first seen.
#[derive(Debug, PartialEq, Eq)]
pub struct Tally {
    keys: Vec<String>,
    counts: Vec<usize>,
    total: usize,
}

/// The views of a sequence of strings.
pub open spec fn names_view(names: Seq<String>) -> Seq<Seq<char>> {
    names.map_values(|s: String| s@)
}

/// The multiset that holds `k` exactly `n` times.
pub closed spec fn repeated(k: Seq<char>, n: nat) -> Multiset<Seq<char>>
    decreases n,
{
    if n == 0 {
        Multiset::empty()
    } else {
        repeated(k, (n - 1) as nat).insert(k)
    }
}

/// The multiset that holds each key as often as its count says.
pub closed spec fn bag_of(keys: Seq<Seq<char>>, counts: Seq<usize>) -> Multiset<Seq<char>>
    decreases keys.len(),
{
    if keys.len() == 0 || counts.len() != keys.len() {
        Multiset::empty()
    } else {
        bag_of(keys.drop_last(), counts.drop_last()).add(
            repeated(keys.last(), counts.last() as nat),
        )
    }
}

proof fn lemma_repeated(k: Seq<char>, n: nat)
    ensures
        repeated(k, n).count(k) == n,
        repeated(k, n).len() == n,
        forall|x: Seq<char>| x != k ==> repeated(k, n).count(x) == 0,
    decreases n,
{
    broadcast use group_multiset_axioms;

    if n > 0 {
        lemma_repeated(k, (n - 1) as nat);
    }
}

proof fn lemma_bag_push(keys: Seq<Seq<char>>, counts: Seq<usize>, k: Seq<char>, c: usize)
    requires
        keys.len() == counts.len(),
    ensures
        bag_of(keys.push(k), counts.push(c)) == bag_of(keys, counts).add(repeated(k, c as nat)),
{
    assert(keys.push(k).drop_last() =~= keys);
    assert(counts.push(c).drop_last() =~= counts);
}

proof fn lemma_bag_counts(keys: Seq<Seq<char>>, counts: Seq<usize>)
    requires
        keys.len() == counts.len(),
        keys.no_duplicates(),
    ensures
        forall|i: int| 0 <= i < keys.len() ==> bag_of(keys, counts).count(#[trigger] keys[i]) == counts[i],
        forall|x: Seq<char>| !keys.contains(x) ==> bag_of(keys, counts).count(x) == 0,
    decreases keys.len(),
{
    broadcast use group_multiset_axioms;

    if keys.len() > 0 {
        let ks = keys.drop_last();
        let cs = counts.drop_last();
        let last = keys.last();
        lemma_bag_counts(ks, cs);
        lemma_repeated(last, counts.last() as nat);
        assert forall|i: int| 0 <= i < keys.len() implies bag_of(keys, counts).count(
            #[trigger] keys[i],
        ) == counts[i] by {
            if i < keys.len() - 1 {
                assert(ks[i] == keys[i]);
                assert(keys[i] != last);
            } else {
                assert(!ks.contains(last)) by {
                    if ks.contains(last) {
                        let j = choose|j: int| 0 <= j < ks.len() && ks[j] == last;
                        assert(keys[j] == keys[keys.len() - 1]);
                    }
                }
            }
        }
        assert forall|x: Seq<char>| !keys.contains(x) implies bag_of(keys, counts).count(x)
            == 0 by {
            assert(x != last) by {
                if x == last {
                    assert(keys[keys.len() - 1] == x);
                }
            }
            assert(!ks.contains(x)) by {
                if ks.contains(x) {
                    let j = choose|j: int| 0 <= j < ks.len() && ks[j] == x;
                    assert(keys[j] == x);
                }
            }
        }
    }
}

proof fn lemma_bag_bump(keys: Seq<Seq<char>>, counts: Seq<usize>, i: int)
    requires
        keys.len() == counts.len(),
        keys.no_duplicates(),
        0 <= i < keys.len(),
        counts[i] < usize::MAX,
    ensures
        bag_of(keys, counts.update(i, (counts[i] + 1) as usize)) == bag_of(keys, counts).insert(
            keys[i],
        ),
{
    broadcast use group_multiset_axioms;

    let bumped = counts.update(i, (counts[i] + 1) as usize);
    lemma_bag_counts(keys, counts);
    lemma_bag_counts(keys, bumped);
    let a = bag_of(keys, bumped);
    let b = bag_of(keys, counts).insert(keys[i]);
    assert forall|x: Seq<char>| a.count(x) == b.count(x) by {
        if keys.contains(x) {
            let j = choose|j: int| 0 <= j < keys.len() && keys[j] == x;
            assert(a.count(keys[j]) == bumped[j]);
            assert(bag_of(keys, counts).count(keys[j]) == counts[j]);
        }
    }
    assert(a =~= b);
}

proof fn lemma_bag_new_key(keys: Seq<Seq<char>>, counts: Seq<usize>, k: Seq<char>)
    requires
        keys.len() == counts.len(),
    ensures
        bag_of(keys.push(k), counts.push(1)) == bag_of(keys, counts).insert(k),
{
    broadcast use group_multiset_axioms;

    lemma_bag_push(keys, counts, k, 1);
    assert(repeated(k, 1) =~= Multiset::singleton(k)) by {
        assert(repeated(k, 0) =~= Multiset::empty());
        assert(repeated(k, 1) == repeated(k, 0).insert(k));
    }
}

proof fn lemma_bag_dom(keys: Seq<Seq<char>>, counts: Seq<usize>)
    requires
        keys.len() == counts.len(),
        keys.no_duplicates(),
        forall|i: int| 0 <= i < counts.len() ==> counts[i] > 0,
    ensures
        bag_of(keys, counts).dom() == keys.to_set(),
        bag_of(keys, counts).dom().len() == keys.len(),
{
    lemma_bag_counts(keys, counts);
    let bag = bag_of(keys, counts);
    assert forall|x: Seq<char>| bag.dom().contains(x) <==> keys.to_set().contains(x) by {
        if keys.contains(x) {
            let j = choose|j: int| 0 <= j < keys.len() && keys[j] == x;
            assert(bag.count(keys[j]) == counts[j]);
        }
    }
    assert(bag.dom() =~= keys.to_set());
    keys.unique_seq_to_set();
}

impl Tally {
    /// The names that were counted, each as often as it was counted.
    pub closed spec fn view(&self) -> Multiset<Seq<char>> {
        bag_of(names_view(self.keys@), self.counts@)
    }

    /// The representation is consistent: every name stands once, with the
    /// positive number of times it was counted, and the total is kept.
    pub closed spec fn wf(&self) -> bool {
        &&& self.keys.len() == self.counts.len()
        &&& names_view(self.keys@).no_duplicates()
        &&& forall|i: int| 0 <= i < self.counts.len() ==> self.counts[i] > 0
        &&& self.total == self@.len()
    }

    /// The names in the order in which they were first counted.
    pub closed spec fn names(&self) -> Seq<Seq<char>> {
        names_view(self.keys@)
    }

    /// In a well-formed tally the names are distinct and are exactly the
    /// names that were counted.
    pub proof fn lemma_names(&self)
        requires
            self.wf(),
        ensures
            self.names().no_duplicates(),
            self.names().to_set() == self@.dom(),
            self.names().len() == self@.dom().len(),
            forall|i: int|
                0 <= i < self.names().len() ==> self@.count(#[trigger] self.names()[i]) > 0,
    {
        lemma_bag_dom(names_view(self.keys@), self.counts@);
        lemma_bag_counts(names_view(self.keys@), self.counts@);
    }

    /// An empty tally.
    pub fn new() -> (t: Tally)
        ensures
            t.wf(),
            t@ == Multiset::<Seq<char>>::empty(),
    {
        broadcast use group_multiset_axioms;

        let t = Tally { keys: Vec::new(), counts: Vec::new(), total: 0 };
        assert(names_view(t.keys@) =~= Seq::empty());
        t
    }

    fn find(&self, key: &str) -> (r: Option<usize>)
        requires
            self.wf(),
        ensures
            match r {
                Some(i) => i < self.keys.len() && self.keys[i as int]@ == key@ && self.counts[i as int]
                    == self@.count(key@),
                None => self@.count(key@) == 0 && !self.names().contains(key@),
            },
    {
        let mut i: usize = 0;
        while i < self.keys.len()
            invariant
                self.wf(),
                i <= self.keys.len(),
                forall|j: int| 0 <= j < i ==> self.keys[j]@ != key@,
            decreases self.keys.len() - i,
        {
            if same(self.keys[i].as_str(), key) {
                proof {
                    lemma_bag_counts(names_view(self.keys@), self.counts@);
                    assert(names_view(self.keys@)[i as int] == key@);
                }
                return Some(i);
            }
            i = i + 1;
        }
        proof {
            lemma_bag_counts(names_view(self.keys@), self.counts@);
            assert(!names_view(self.keys@).contains(key@)) by {
                if names_view(self.keys@).contains(key@) {
                    let j = choose|j: int|
                        0 <= j < names_view(self.keys@).len() && names_view(self.keys@)[j] == key@;
                    assert(self.keys[j]@ == key@);
                }
            }
        }
        None
    }

    /// Counts `key` once more.
    pub fn increment(&mut self, key: &str)
        requires
            old(self).wf(),
            old(self)@.len() < usize::MAX,
        ensures
            final(self).wf(),
            final(self)@ == old(self)@.insert(key@),
    {
        broadcast use group_multiset_axioms;

        let found = self.find(key);
        match found {
            Some(i) => {
                let c = self.counts[i];
                proof {
                    lemma_bag_bump(names_view(self.keys@), self.counts@, i as int);
                    assert(names_view(self.keys@)[i as int] == key@);
                }
                self.counts[i] = c + 1;
            },
            None => {
                let owned = key.to_owned();
                proof {
                    lemma_bag_new_key(names_view(self.keys@), self.counts@, key@);
                    assert(names_view(self.keys@.push(owned)) =~= names_view(self.keys@).push(key@));
                }
                self.keys.push(owned);
                self.counts.push(1);
            },
        }
        self.total = self.total + 1;
    }

    /// How often `key` was counted, where it was counted at all.
    pub fn get(&self, key: &str) -> (r: Option<&usize>)
        requires
            self.wf(),
        ensures
            match r {
                Some(c) => *c == self@.count(key@) && *c > 0,
                None => self@.count(key@) == 0,
            },
    {
        match self.find(key) {
            Some(i) => Some(&self.counts[i]),
            None => None,
        }
    }

    /// How often `key` was counted; 0 where it never was.
    pub fn count(&self, key: &str) -> (r: usize)
        requires
            self.wf(),
        ensures
            r == self@.count(key@),
    {
        match self.find(key) {
            Some(i) => self.counts[i],
            None => 0,
        }
    }

    /// The number of distinct names that were counted.
    pub fn len(&self) -> (r: usize)
        requires
            self.wf(),
        ensures
            r == self@.dom().len(),
            r == self.names().len(),
    {
        proof {
            lemma_bag_dom(names_view(self.keys@), self.counts@);
        }
        self.keys.len()
    }

    /// Whether nothing was counted.
    pub fn is_empty(&self) -> (r: bool)
        requires
            self.wf(),
        ensures
            r == (self@.len() == 0),
    {
        self.total == 0
    }

    /// The number of names that were counted, repetitions included.
    pub fn total(&self) -> (r: usize)
        requires
            self.wf(),
        ensures
            r == self@.len(),
    {
        self.total
    }

    /// The `i`-th distinct name, in the order of first counting, and its count.
    pub fn entry(&self, i: usize) -> (r: (&String, usize))
        requires
            self.wf(),
            i < self.names().len(),
        ensures
            r.0@ == self.names()[i as int],
            r.1 == self@.count(r.0@),
    {
        proof {
            lemma_bag_counts(names_view(self.keys@), self.counts@);
            assert(names_view(self.keys@)[i as int] == self.keys[i as int]@);
        }
        (&self.keys[i], self.counts[i])
    }
}

} // verus!
