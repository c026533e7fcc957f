//! Text primitives shared by the whole crate: the order in which names sort,
//! and the conversions between strings and their characters.
//!
//! Every contract in this crate speaks of a string through its view, the
//! sequence of its characters.

use vstd::prelude::*;
use vstd::std_specs::iter::IteratorSpec;

verus! {

/// The outcome of comparing two names.
#[derive(Clone, Copy, Debug, PartialEq, Eq)]
pub enum Rank {
    Before,
    Same,
    After,
}

/// `a` and `b` agree on their first `k` characters, and at position `k` either
/// `a` has ended while `b` goes on, or `a` holds the smaller character.
pub open spec fn precedes_at(a: Seq<char>, b: Seq<char>, k: int) -> bool {
    &&& 0 <= k <= a.len()
    &&& k < b.len()
    &&& forall|i: int| 0 <= i < k ==> a[i] == b[i]
    &&& (k == a.len() || (a[k] as int) < (b[k] as int))
}

/// The strict lexicographic order on names, character by character. This is
/// the order in which `str` values compare.
pub open spec fn precedes(a: Seq<char>, b: Seq<char>) -> bool {
    exists|k: int| precedes_at(a, b, k)
}

/// What `compare` answers for two names.
pub open spec fn rank_of(a: Seq<char>, b: Seq<char>) -> Rank {
    if a == b {
        Rank::Same
    } else if precedes(a, b) {
        Rank::Before
    } else {
        Rank::After
    }
}

/// No name sorts before itself.
pub proof fn lemma_precedes_irreflexive(a: Seq<char>)
    ensures
        !precedes(a, a),
{
    if precedes(a, a) {
        let k = choose|k: int| precedes_at(a, a, k);
        assert(precedes_at(a, a, k));
    }
}

/// Of two names at most one sorts before the other.
pub proof fn lemma_precedes_asymmetric(a: Seq<char>, b: Seq<char>)
    requires
        precedes(a, b),
    ensures
        !precedes(b, a),
        a != b,
{
    let k = choose|k: int| precedes_at(a, b, k);
    assert(precedes_at(a, b, k));
    if precedes(b, a) {
        let j = choose|j: int| precedes_at(b, a, j);
        assert(precedes_at(b, a, j));
        if j < k {
            assert(a[j] == b[j]);
        } else if k < j {
            assert(b[k] == a[k]);
        }
    }
}

/// The order is transitive.
pub proof fn lemma_precedes_transitive(a: Seq<char>, b: Seq<char>, c: Seq<char>)
    requires
        precedes(a, b),
        precedes(b, c),
    ensures
        precedes(a, c),
{
    let k = choose|k: int| precedes_at(a, b, k);
    let j = choose|j: int| precedes_at(b, c, j);
    assert(precedes_at(a, b, k));
    assert(precedes_at(b, c, j));
    if k <= j {
        if k < j {
            assert(b[k] == c[k]);
        }
        assert(precedes_at(a, c, k));
    } else {
        assert(a[j] == b[j]);
        assert(precedes_at(a, c, j));
    }
}

/// Two names that share their first `k` characters and part ways there are
/// ordered by what stands at position `k`.
pub proof fn lemma_rank_from_prefix(a: Seq<char>, b: Seq<char>, k: int)
    requires
        0 <= k <= a.len(),
        k <= b.len(),
        forall|i: int| 0 <= i < k ==> a[i] == b[i],
        k == a.len() || k == b.len() || a[k] != b[k],
    ensures
        k == a.len() && k == b.len() ==> rank_of(a, b) == Rank::Same,
        k == a.len() && k < b.len() ==> rank_of(a, b) == Rank::Before,
        k < a.len() && k == b.len() ==> rank_of(a, b) == Rank::After && precedes(b, a),
        k < a.len() && k < b.len() && (a[k] as int) < (b[k] as int) ==> rank_of(a, b)
            == Rank::Before,
        k < a.len() && k < b.len() && (a[k] as int) > (b[k] as int) ==> rank_of(a, b)
            == Rank::After && precedes(b, a),
{
    if k == a.len() && k == b.len() {
        assert(a =~= b);
    } else if k == a.len() {
        assert(precedes_at(a, b, k));
    } else if k == b.len() {
        assert(precedes_at(b, a, k));
        lemma_precedes_asymmetric(b, a);
    } else if (a[k] as int) < (b[k] as int) {
        assert(precedes_at(a, b, k));
    } else {
        assert((a[k] as int) != (b[k] as int));
        assert(precedes_at(b, a, k));
        lemma_precedes_asymmetric(b, a);
    }
}

/// Any two names are equal or ordered one way.
pub proof fn lemma_precedes_total(a: Seq<char>, b: Seq<char>)
    ensures
        a == b || precedes(a, b) || precedes(b, a),
    decreases a.len(),
{
    let k = common_prefix_len(a, b);
    lemma_common_prefix_len(a, b);
    lemma_rank_from_prefix(a, b, k);
}

/// The number of leading characters on which `a` and `b` agree.
pub open spec fn common_prefix_len(a: Seq<char>, b: Seq<char>) -> int
    decreases a.len(),
{
    if a.len() == 0 || b.len() == 0 || a[0] != b[0] {
        0
    } else {
        1 + common_prefix_len(a.drop_first(), b.drop_first())
    }
}

/// `common_prefix_len` is the place where two names part ways.
pub proof fn lemma_common_prefix_len(a: Seq<char>, b: Seq<char>)
    ensures
        0 <= common_prefix_len(a, b) <= a.len(),
        common_prefix_len(a, b) <= b.len(),
        forall|i: int| 0 <= i < common_prefix_len(a, b) ==> a[i] == b[i],
        common_prefix_len(a, b) == a.len() || common_prefix_len(a, b) == b.len()
            || a[common_prefix_len(a, b)] != b[common_prefix_len(a, b)],
    decreases a.len(),
{
    if a.len() == 0 || b.len() == 0 || a[0] != b[0] {
    } else {
        let a1 = a.drop_first();
        let b1 = b.drop_first();
        lemma_common_prefix_len(a1, b1);
        let k = common_prefix_len(a1, b1);
        assert forall|i: int| 0 <= i < k + 1 implies a[i] == b[i] by {
            if i > 0 {
                assert(a1[i - 1] == b1[i - 1]);
            }
        }
        if k < a1.len() && k < b1.len() {
            assert(a1[k] == a[k + 1]);
            assert(b1[k] == b[k + 1]);
        }
    }
}

/// Compares two names in the order of `precedes`.
pub fn compare(a: &str, b: &str) -> (r: Rank)
    ensures
        r == rank_of(a@, b@),
        r == Rank::After ==> precedes(b@, a@),
{
    broadcast use vstd::string::group_string_axioms;

    let mut left = a.chars();
    let mut right = b.chars();
    let ghost mut k: int = 0;
    loop
        invariant
            left.obeys_prophetic_iter_laws(),
            right.obeys_prophetic_iter_laws(),
            left.decrease() is Some,
            0 <= k <= a@.len(),
            k <= b@.len(),
            left.remaining() == a@.skip(k),
            right.remaining() == b@.skip(k),
            forall|i: int| 0 <= i < k ==> a@[i] == b@[i],
        decreases left.decrease()->0,
    {
        let x = left.next();
        let y = right.next();
        match (x, y) {
            (None, None) => {
                proof {
                    lemma_rank_from_prefix(a@, b@, k);
                }
                return Rank::Same;
            },
            (None, Some(_)) => {
                proof {
                    lemma_rank_from_prefix(a@, b@, k);
                }
                return Rank::Before;
            },
            (Some(_), None) => {
                proof {
                    lemma_rank_from_prefix(a@, b@, k);
                }
                return Rank::After;
            },
            (Some(p), Some(q)) => {
                assert(p == a@[k] && q == b@[k]);
                if p < q {
                    proof {
                        lemma_rank_from_prefix(a@, b@, k);
                    }
                    return Rank::Before;
                }
                if p > q {
                    proof {
                        lemma_rank_from_prefix(a@, b@, k);
                    }
                    return Rank::After;
                }
                assert(p == q);
                proof {
                    assert(a@.skip(k).drop_first() =~= a@.skip(k + 1));
                    assert(b@.skip(k).drop_first() =~= b@.skip(k + 1));
                    k = k + 1;
                }
            },
        }
    }
}

/// Whether two names are the same text.
pub fn same(a: &str, b: &str) -> (r: bool)
    ensures
        r == (a@ == b@),
{
    match compare(a, b) {
        Rank::Same => true,
        _ => false,
    }
}

/// Whether `a` sorts strictly before `b`.
pub fn sorts_before(a: &str, b: &str) -> (r: bool)
    ensures
        r == precedes(a@, b@),
{
    proof {
        if a@ == b@ {
            lemma_precedes_irreflexive(a@);
        }
        if precedes(b@, a@) {
            lemma_precedes_asymmetric(b@, a@);
        }
    }
    match compare(a, b) {
        Rank::Before => true,
        _ => false,
    }
}

/// `needle` stands in `hay` from position `i` on.
pub open spec fn occurs_at(hay: Seq<char>, needle: Seq<char>, i: int) -> bool {
    0 <= i && i + needle.len() <= hay.len() && hay.subrange(i, i + needle.len()) == needle
}

/// `needle` stands somewhere in `hay`. The empty text stands in every text.
pub open spec fn occurs(hay: Seq<char>, needle: Seq<char>) -> bool {
    exists|i: int| occurs_at(hay, needle, i)
}

/// Whether `needle` stands somewhere in `hay`.
pub fn contains_text(hay: &str, needle: &str) -> (r: bool)
    ensures
        r == occurs(hay@, needle@),
{
    let h = to_chars(hay);
    let n = to_chars(needle);
    if n.len() > h.len() {
        return false;
    }
    let last = h.len() - n.len();
    let mut i: usize = 0;
    while i <= last
        invariant
            h@ == hay@,
            n@ == needle@,
            n.len() <= h.len(),
            last == h.len() - n.len(),
            i <= last + 1,
            forall|k: int| 0 <= k < i ==> !occurs_at(hay@, needle@, k),
        decreases last + 1 - i,
    {
        let mut j: usize = 0;
        let mut same_so_far = true;
        while same_so_far && j < n.len()
            invariant
                h@ == hay@,
                n@ == needle@,
                i + n.len() <= h.len(),
                j <= n.len(),
                same_so_far ==> forall|k: int| 0 <= k < j ==> h[i + k] == n[k],
                !same_so_far ==> exists|k: int| 0 <= k < n.len() && h[i + k] != n[k],
            decreases n.len() - j + if same_so_far { 1int } else { 0int },
        {
            if h[i + j] != n[j] {
                same_so_far = false;
            } else {
                j = j + 1;
            }
        }
        if same_so_far {
            assert(hay@.subrange(i as int, i + needle@.len()) =~= needle@);
            assert(occurs_at(hay@, needle@, i as int));
            return true;
        }
        proof {
            let k = choose|k: int| 0 <= k < n.len() && h[i + k] != n[k];
            if occurs_at(hay@, needle@, i as int) {
                assert(hay@.subrange(i as int, i + needle@.len())[k] == needle@[k]);
            }
        }
        i = i + 1;
    }
    false
}

/// The characters of `s`, in order.
pub fn to_chars(s: &str) -> (v: Vec<char>)
    ensures
        v@ == s@,
{
    broadcast use vstd::string::group_string_axioms;

    let mut v: Vec<char> = Vec::new();
    let mut it = s.chars();
    loop
        invariant
            it.obeys_prophetic_iter_laws(),
            it.decrease() is Some,
            v@ + it.remaining() == s@,
        ensures
            v@ == s@,
        decreases it.decrease()->0,
    {
        match it.next() {
            Some(c) => {
                v.push(c);
            },
            None => {
                break ;
            },
        }
    }
    v
}

} // verus!
