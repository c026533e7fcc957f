//! Stable sorting of table rows by a key that holds a number and a name.
//!
//! Rows are ordered by the number, rows with the same number by the name, and
//! rows with the same key keep the order in which they came.

use crate::text::{
    compare, lemma_precedes_asymmetric, lemma_precedes_total, lemma_precedes_transitive, precedes,
    Rank,
};
use crate::shared::arc_clone;
use std::sync::Arc;
use vstd::prelude::*;

verus! {

/// The key of a row.
#[derive(Debug, PartialEq, Eq)]
pub struct SortKey {
    pub number: usize,
    pub text: String,
}

impl View for SortKey {
    type V = (usize, Seq<char>);

    open spec fn view(&self) -> (usize, Seq<char>) {
        (self.number, self.text@)
    }
}

/// The views of a list of keys.
pub open spec fn keys_view(keys: Seq<SortKey>) -> Seq<(usize, Seq<char>)> {
    keys.map_values(|k: SortKey| k@)
}

/// The key `a` sorts strictly before the key `b`.
pub open spec fn key_before(a: (usize, Seq<char>), b: (usize, Seq<char>)) -> bool {
    a.0 < b.0 || (a.0 == b.0 && precedes(a.1, b.1))
}

/// The row at position `i` comes before the row at position `j`: by its key,
/// or, with the same key, by its position.
pub open spec fn row_before(keys: Seq<(usize, Seq<char>)>, i: int, j: int) -> bool {
    key_before(keys[i], keys[j]) || (keys[i] == keys[j] && i < j)
}

/// `order` lists the positions of the rows of `keys` in sorted order.
pub open spec fn is_stable_order(keys: Seq<(usize, Seq<char>)>, order: Seq<usize>) -> bool {
    &&& order.len() == keys.len()
    &&& forall|p: int| 0 <= p < order.len() ==> (#[trigger] order[p]) < keys.len()
    &&& forall|p: int, q: int|
        0 <= p < q < order.len() ==> row_before(keys, order[p] as int, order[q] as int)
}

/// The rows of `rows` in the given order.
pub open spec fn arranged<T>(rows: Seq<T>, order: Seq<usize>) -> Seq<T> {
    Seq::new(order.len(), |p: int| rows[order[p] as int])
}

/// `sorted` holds the rows of `rows` in the stable order of their keys, and
/// in the reverse of that order where `descending` is set.
pub open spec fn is_sorted_by_keys<T>(
    keys: Seq<(usize, Seq<char>)>,
    rows: Seq<T>,
    sorted: Seq<T>,
    descending: bool,
) -> bool {
    exists|order: Seq<usize>|
        is_stable_order(keys, order) && sorted == if descending {
            arranged(rows, order).reverse()
        } else {
            arranged(rows, order)
        }
}

/// The order of keys is transitive.
pub proof fn lemma_key_before_transitive(
    a: (usize, Seq<char>),
    b: (usize, Seq<char>),
    c: (usize, Seq<char>),
)
    requires
        key_before(a, b),
        key_before(b, c),
    ensures
        key_before(a, c),
{
    if a.0 == b.0 && b.0 == c.0 {
        lemma_precedes_transitive(a.1, b.1, c.1);
    }
}

/// Two keys are equal or ordered one way, and not both ways.
pub proof fn lemma_key_before_total(a: (usize, Seq<char>), b: (usize, Seq<char>))
    ensures
        a == b || key_before(a, b) || key_before(b, a),
        key_before(a, b) ==> a != b && !key_before(b, a),
{
    lemma_precedes_total(a.1, b.1);
    if precedes(a.1, b.1) {
        lemma_precedes_asymmetric(a.1, b.1);
    }
    if precedes(b.1, a.1) {
        lemma_precedes_asymmetric(b.1, a.1);
    }
}

/// A stable order holds every position once.
pub proof fn lemma_stable_order_is_permutation(keys: Seq<(usize, Seq<char>)>, order: Seq<usize>)
    requires
        is_stable_order(keys, order),
    ensures
        order.no_duplicates(),
{
    assert forall|p: int, q: int| 0 <= p < order.len() && 0 <= q < order.len() && p != q implies order[p]
        != order[q] by {
        let (a, b) = if p < q {
            (p, q)
        } else {
            (q, p)
        };
        assert(row_before(keys, order[a] as int, order[b] as int));
        lemma_key_before_total(keys[order[a] as int], keys[order[b] as int]);
    }
}

/// A stable order holds every position.
pub proof fn lemma_stable_order_holds_all(
    keys: Seq<(usize, Seq<char>)>,
    order: Seq<usize>,
    x: usize,
)
    requires
        is_stable_order(keys, order),
        x < keys.len(),
    ensures
        order.contains(x),
{
    lemma_stable_order_is_permutation(keys, order);
    let n = keys.len() as int;
    let positions = order.map_values(|v: usize| v as int);
    assert(positions.no_duplicates()) by {
        assert forall|p: int, q: int|
            0 <= p < positions.len() && 0 <= q < positions.len() && p != q implies positions[p]
            != positions[q] by {
            assert(order[p] != order[q]);
        }
    }
    positions.unique_seq_to_set();
    vstd::seq_lib::seq_to_set_is_finite(positions);
    vstd::set_lib::lemma_int_range(0, n);
    let all = vstd::set_lib::set_int_range(0, n);
    assert(positions.to_set().subset_of(all)) by {
        assert forall|v: int| positions.to_set().contains(v) implies all.contains(v) by {
            let p = choose|p: int| 0 <= p < positions.len() && positions[p] == v;
            assert(order[p] < keys.len());
        }
    }
    vstd::set_lib::lemma_subset_equality(positions.to_set(), all);
    assert(all.contains(x as int));
    assert(positions.contains(x as int));
    let p = choose|p: int| 0 <= p < positions.len() && positions[p] == x as int;
    assert(order[p] == x);
}

/// Of two rows one comes before the other, and not the other way round.
pub proof fn lemma_row_before_asymmetric(keys: Seq<(usize, Seq<char>)>, i: int, j: int)
    requires
        row_before(keys, i, j),
    ensures
        !row_before(keys, j, i),
{
    lemma_key_before_total(keys[i], keys[j]);
    lemma_key_before_total(keys[j], keys[i]);
}

/// Two stable orders of the same keys agree on their first `p` positions.
proof fn lemma_stable_orders_agree(
    keys: Seq<(usize, Seq<char>)>,
    a: Seq<usize>,
    b: Seq<usize>,
    p: int,
)
    requires
        is_stable_order(keys, a),
        is_stable_order(keys, b),
        0 <= p <= keys.len(),
    ensures
        forall|k: int| 0 <= k < p ==> a[k] == b[k],
    decreases p,
{
    if p > 0 {
        lemma_stable_orders_agree(keys, a, b, p - 1);
        let at = p - 1;
        if a[at] != b[at] {
            lemma_stable_order_is_permutation(keys, a);
            lemma_stable_order_is_permutation(keys, b);
            lemma_stable_order_holds_all(keys, b, a[at]);
            lemma_stable_order_holds_all(keys, a, b[at]);
            let q = choose|q: int| 0 <= q < b.len() && b[q] == a[at];
            let r = choose|r: int| 0 <= r < a.len() && a[r] == b[at];
            if q < at {
                assert(a[q] == b[q]);
            }
            if r < at {
                assert(a[r] == b[r]);
            }
            assert(row_before(keys, b[at] as int, b[q] as int));
            assert(row_before(keys, a[at] as int, a[r] as int));
            lemma_row_before_asymmetric(keys, a[at] as int, b[at] as int);
        }
    }
}

/// The stable order of a list of keys is unique.
pub proof fn lemma_stable_order_unique(keys: Seq<(usize, Seq<char>)>, a: Seq<usize>, b: Seq<usize>)
    requires
        is_stable_order(keys, a),
        is_stable_order(keys, b),
    ensures
        a == b,
{
    lemma_stable_orders_agree(keys, a, b, keys.len() as int);
    assert(a =~= b);
}

/// Sorting by keys has one outcome.
pub proof fn lemma_sorted_by_keys_unique<T>(
    keys: Seq<(usize, Seq<char>)>,
    rows: Seq<T>,
    first: Seq<T>,
    second: Seq<T>,
    descending: bool,
)
    requires
        is_sorted_by_keys(keys, rows, first, descending),
        is_sorted_by_keys(keys, rows, second, descending),
    ensures
        first == second,
{
    let a = choose|order: Seq<usize>|
        is_stable_order(keys, order) && first == if descending {
            arranged(rows, order).reverse()
        } else {
            arranged(rows, order)
        };
    let b = choose|order: Seq<usize>|
        is_stable_order(keys, order) && second == if descending {
            arranged(rows, order).reverse()
        } else {
            arranged(rows, order)
        };
    lemma_stable_order_unique(keys, a, b);
}

/// Whether the key `a` sorts strictly before the key `b`.
pub fn sorts_first(a: &SortKey, b: &SortKey) -> (r: bool)
    ensures
        r == key_before(a@, b@),
{
    proof {
        lemma_precedes_total(a.text@, b.text@);
        if precedes(b.text@, a.text@) {
            lemma_precedes_asymmetric(b.text@, a.text@);
        }
        if a.text@ == b.text@ {
            crate::text::lemma_precedes_irreflexive(a.text@);
        }
    }
    if a.number < b.number {
        true
    } else if a.number > b.number {
        false
    } else {
        match compare(a.text.as_str(), b.text.as_str()) {
            Rank::Before => true,
            _ => false,
        }
    }
}

/// The positions of the rows of `keys` in sorted order.
pub fn stable_order(keys: &Vec<SortKey>) -> (order: Vec<usize>)
    ensures
        is_stable_order(keys_view(keys@), order@),
{
    let ghost all = keys_view(keys@);
    let mut order: Vec<usize> = Vec::new();
    let mut i: usize = 0;
    while i < keys.len()
        invariant
            i <= keys.len(),
            all == keys_view(keys@),
            order.len() == i,
            forall|p: int| 0 <= p < order.len() ==> (#[trigger] order[p]) < i,
            forall|p: int, q: int|
                0 <= p < q < order.len() ==> row_before(all, order[p] as int, order[q] as int),
        decreases keys.len() - i,
    {
        let ghost before = order@;
        let mut pos: usize = 0;
        let mut placed = false;
        while !placed && pos < order.len()
            invariant
                i < keys.len(),
                pos <= order.len(),
                all == keys_view(keys@),
                before == order@,
                forall|p: int| 0 <= p < order.len() ==> (#[trigger] order[p]) < i,
                forall|p: int| 0 <= p < pos ==> !key_before(all[i as int], all[order[p] as int]),
                placed ==> pos < order.len() && key_before(
                    all[i as int],
                    all[order[pos as int] as int],
                ),
            decreases order.len() - pos + if placed { 0int } else { 1int },
        {
            assert(all[i as int] == keys[i as int]@);
            assert(all[order[pos as int] as int] == keys[order[pos as int] as int]@);
            if sorts_first(&keys[i], &keys[order[pos]]) {
                placed = true;
            } else {
                pos = pos + 1;
            }
        }
        proof {
            let grown = before.insert(pos as int, i);
            assert forall|p: int, q: int| 0 <= p < q < grown.len() implies row_before(
                all,
                grown[p] as int,
                grown[q] as int,
            ) by {
                if q == pos {
                    assert(grown[p] == before[p]);
                    lemma_key_before_total(all[i as int], all[before[p] as int]);
                } else if p == pos {
                    assert(grown[q] == before[q - 1]);
                    if q - 1 > pos {
                        assert(row_before(all, before[pos as int] as int, before[q - 1] as int));
                        if key_before(all[before[pos as int] as int], all[before[q - 1] as int]) {
                            lemma_key_before_transitive(
                                all[i as int],
                                all[before[pos as int] as int],
                                all[before[q - 1] as int],
                            );
                        }
                    }
                } else {
                    let a = if p < pos {
                        p
                    } else {
                        p - 1
                    };
                    let b = if q < pos {
                        q
                    } else {
                        q - 1
                    };
                    assert(grown[p] == before[a] && grown[q] == before[b]);
                }
            }
            assert forall|p: int| 0 <= p < grown.len() implies (#[trigger] grown[p]) < i + 1 by {
                if p < pos {
                    assert(grown[p] == before[p]);
                } else if p > pos {
                    assert(grown[p] == before[p - 1]);
                }
            }
        }
        order.insert(pos, i);
        i = i + 1;
    }
    order
}

/// The rows of `rows` in the stable order of `keys`, which holds the key of
/// each row; in the reverse of that order where `descending` is set.
pub fn sort_rows<T>(rows: &Vec<Arc<T>>, keys: &Vec<SortKey>, descending: bool) -> (sorted: Vec<
    Arc<T>,
>)
    requires
        keys.len() == rows.len(),
    ensures
        is_sorted_by_keys(keys_view(keys@), rows@, sorted@, descending),
        sorted.len() == rows.len(),
{
    let order = stable_order(keys);
    let mut sorted: Vec<Arc<T>> = Vec::new();
    let mut p: usize = 0;
    while p < order.len()
        invariant
            p <= order.len(),
            keys.len() == rows.len(),
            is_stable_order(keys_view(keys@), order@),
            sorted.len() == p,
            forall|k: int| 0 <= k < p ==> sorted[k] == rows[order[k] as int],
        decreases order.len() - p,
    {
        sorted.push(arc_clone(&rows[order[p]]));
        p = p + 1;
    }
    assert(sorted@ =~= arranged(rows@, order@));
    if descending {
        reversed(sorted)
    } else {
        sorted
    }
}

/// The list `v` from its last element to its first.
pub fn reversed<T>(v: Vec<T>) -> (r: Vec<T>)
    ensures
        r@ == v@.reverse(),
{
    let ghost all = v@;
    let mut rest = v;
    let mut r: Vec<T> = Vec::new();
    while rest.len() > 0
        invariant
            rest.len() <= all.len(),
            rest@ == all.take(rest.len() as int),
            r.len() + rest.len() == all.len(),
            forall|k: int| 0 <= k < r.len() ==> r[k] == all[all.len() - 1 - k],
        decreases rest.len(),
    {
        let ghost n = rest.len() as int;
        let last = rest.pop();
        match last {
            Some(x) => {
                assert(x == all[n - 1]);
                r.push(x);
            },
            None => {},
        }
    }
    assert(r@ =~= all.reverse());
    r
}

} // verus!
