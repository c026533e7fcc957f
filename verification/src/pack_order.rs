//! The order in which the packs of a report stand: by name, and for packs
//! of the same name in the order in which the snapshot holds them.

use crate::configuration::{packs_view, Pack, PackView};
use crate::text::{
    lemma_precedes_asymmetric, lemma_precedes_total, lemma_precedes_transitive, precedes,
    sorts_before,
};
use std::sync::Arc;
use vstd::prelude::*;

verus! {

/// The views of a list of shared packs.
pub open spec fn shared_packs_view(packs: Seq<Arc<Pack>>) -> Seq<PackView> {
    packs.map_values(|p: Arc<Pack>| p@)
}

/// The names of a list of packs.
pub open spec fn pack_names(packs: Seq<PackView>) -> Seq<Seq<char>> {
    packs.map_values(|p: PackView| p.name)
}

/// The packs named `name`.
pub open spec fn has_name(name: Seq<char>) -> spec_fn(PackView) -> bool {
    |p: PackView| p.name == name
}

/// No pack stands behind a pack whose name sorts after its own.
pub open spec fn ordered_by_name(packs: Seq<PackView>) -> bool {
    forall|i: int, j: int| 0 <= i < j < packs.len() ==> !precedes(packs[j].name, packs[i].name)
}

/// `sorted` holds the packs of `packs` in the order of their names; packs of
/// the same name keep the order that they have in `packs`.
pub open spec fn is_sorted_by_name(packs: Seq<PackView>, sorted: Seq<PackView>) -> bool {
    &&& sorted.len() == packs.len()
    &&& ordered_by_name(sorted)
    &&& forall|name: Seq<char>| #[trigger]
        sorted.filter(has_name(name)) == packs.filter(has_name(name))
}

/// Putting a pack behind the packs that do not sort after it keeps the order,
/// and places it last among the packs of its name.
pub proof fn lemma_place_pack(sorted: Seq<PackView>, pos: int, x: PackView)
    requires
        ordered_by_name(sorted),
        0 <= pos <= sorted.len(),
        forall|j: int| 0 <= j < pos ==> !precedes(x.name, sorted[j].name),
        pos < sorted.len() ==> precedes(x.name, sorted[pos].name),
    ensures
        ordered_by_name(sorted.insert(pos, x)),
        forall|name: Seq<char>| #[trigger]
            sorted.insert(pos, x).filter(has_name(name)) == if x.name == name {
                sorted.filter(has_name(name)).push(x)
            } else {
                sorted.filter(has_name(name))
            },
{
    let grown = sorted.insert(pos, x);
    let head = sorted.take(pos);
    let tail = sorted.skip(pos);
    assert forall|j: int| pos <= j < sorted.len() implies precedes(x.name, sorted[j].name) by {
        if j > pos {
            lemma_precedes_total(sorted[pos].name, sorted[j].name);
            if sorted[pos].name != sorted[j].name {
                lemma_precedes_transitive(x.name, sorted[pos].name, sorted[j].name);
            }
        }
    }
    assert forall|i: int, j: int| 0 <= i < j < grown.len() implies !precedes(
        grown[j].name,
        grown[i].name,
    ) by {
        if j == pos {
            assert(grown[i] == sorted[i]);
            lemma_precedes_total(x.name, sorted[i].name);
        } else if i == pos {
            assert(grown[j] == sorted[j - 1]);
            lemma_precedes_asymmetric(x.name, sorted[j - 1].name);
        } else {
            let a = if i < pos {
                i
            } else {
                i - 1
            };
            let b = if j < pos {
                j
            } else {
                j - 1
            };
            assert(grown[i] == sorted[a] && grown[j] == sorted[b]);
        }
    }
    assert forall|name: Seq<char>| #[trigger]
        grown.filter(has_name(name)) == if x.name == name {
            sorted.filter(has_name(name)).push(x)
        } else {
            sorted.filter(has_name(name))
        } by {
        let pred = has_name(name);
        assert(sorted =~= head + tail);
        assert(grown =~= head.push(x) + tail);
        Seq::filter_distributes_over_add(head, tail, pred);
        Seq::filter_distributes_over_add(head.push(x), tail, pred);
        head.lemma_filter_push(x, pred);
        if x.name == name {
            assert(tail.filter(pred).len() == 0) by {
                if tail.filter(pred).len() > 0 {
                    let first = tail.filter(pred)[0];
                    tail.lemma_filter_pred(pred, 0);
                    assert(tail.filter(pred).contains(first));
                    tail.lemma_filter_contains_rev(pred, first);
                    let j = choose|j: int| 0 <= j < tail.len() && tail[j] == first;
                    assert(tail[j] == sorted[pos + j]);
                    lemma_precedes_asymmetric(x.name, sorted[pos + j].name);
                }
            }
            assert(tail.filter(pred) =~= Seq::empty());
            assert(head.filter(pred).push(x) + tail.filter(pred) =~= (head.filter(pred)
                + tail.filter(pred)).push(x));
        }
    }
}

/// Sorting neither adds nor drops a pack.
pub proof fn lemma_sorted_has_same_packs(packs: Seq<PackView>, sorted: Seq<PackView>)
    requires
        is_sorted_by_name(packs, sorted),
    ensures
        forall|x: PackView| sorted.contains(x) <==> packs.contains(x),
{
    assert forall|x: PackView| sorted.contains(x) <==> packs.contains(x) by {
        let pred = has_name(x.name);
        assert(sorted.filter(pred) == packs.filter(pred));
        if sorted.contains(x) {
            let i = choose|i: int| 0 <= i < sorted.len() && sorted[i] == x;
            sorted.lemma_filter_contains(pred, i);
            packs.lemma_filter_contains_rev(pred, x);
        }
        if packs.contains(x) {
            let i = choose|i: int| 0 <= i < packs.len() && packs[i] == x;
            packs.lemma_filter_contains(pred, i);
            sorted.lemma_filter_contains_rev(pred, x);
        }
    }
}

/// The index of the first pack of `packs` from `from` on that `pred` accepts;
/// the length of `packs` where there is none.
pub open spec fn first_accepted(packs: Seq<PackView>, pred: spec_fn(PackView) -> bool, from: int) -> int
    decreases packs.len() - from,
{
    if from < 0 || from >= packs.len() {
        packs.len() as int
    } else if pred(packs[from]) {
        from
    } else {
        first_accepted(packs, pred, from + 1)
    }
}

/// The search for a pack finds the first pack that is accepted.
pub proof fn lemma_first_accepted(packs: Seq<PackView>, pred: spec_fn(PackView) -> bool, from: int)
    requires
        0 <= from <= packs.len(),
    ensures
        from <= first_accepted(packs, pred, from) <= packs.len(),
        first_accepted(packs, pred, from) < packs.len() ==> pred(
            packs[first_accepted(packs, pred, from)],
        ),
        forall|k: int| from <= k < first_accepted(packs, pred, from) ==> !pred(#[trigger] packs[k]),
    decreases packs.len() - from,
{
    if from < packs.len() && !pred(packs[from]) {
        lemma_first_accepted(packs, pred, from + 1);
    }
}

/// A selection starts with the first pack that is accepted, and is empty
/// where none is.
pub proof fn lemma_selection_starts(packs: Seq<PackView>, pred: spec_fn(PackView) -> bool)
    ensures
        first_accepted(packs, pred, 0) == packs.len() ==> packs.filter(pred).len() == 0,
        first_accepted(packs, pred, 0) < packs.len() ==> packs.filter(pred).len() > 0
            && packs.filter(pred)[0] == packs[first_accepted(packs, pred, 0)],
    decreases packs.len(),
{
    lemma_first_accepted(packs, pred, 0);
    if packs.len() == 0 {
        reveal(Seq::filter);
        assert(packs.filter(pred) =~= Seq::empty());
    } else {
        let rest = packs.drop_last();
        let last = packs.last();
        lemma_selection_starts(rest, pred);
        lemma_first_accepted(rest, pred, 0);
        assert(packs =~= rest.push(last));
        rest.lemma_filter_push(last, pred);
        let at = first_accepted(packs, pred, 0);
        let before = first_accepted(rest, pred, 0);
        if before < rest.len() {
            assert(pred(packs[before]));
            assert(at == before) by {
                assert forall|k: int| 0 <= k < before implies !pred(#[trigger] packs[k]) by {
                    assert(packs[k] == rest[k]);
                }
                if at < before {
                    assert(rest[at] == packs[at]);
                } else if before < at {
                    assert(!pred(packs[before]));
                }
            }
        } else {
            assert forall|k: int| 0 <= k < rest.len() implies !pred(#[trigger] packs[k]) by {
                assert(packs[k] == rest[k]);
            }
            if at < rest.len() {
                assert(!pred(packs[at]));
            }
        }
    }
}

/// Two lists that are both the packs of `packs` sorted by name agree on their
/// first `n` packs.
proof fn lemma_sorted_agree(packs: Seq<PackView>, a: Seq<PackView>, b: Seq<PackView>, n: int)
    requires
        is_sorted_by_name(packs, a),
        is_sorted_by_name(packs, b),
        0 <= n <= packs.len(),
    ensures
        forall|k: int| 0 <= k < n ==> a[k] == b[k],
    decreases n,
{
    if n > 0 {
        lemma_sorted_agree(packs, a, b, n - 1);
        let at = n - 1;
        assert(a.take(at) =~= b.take(at));
        if a[at] != b[at] {
            lemma_displaced(packs, a, b, at);
            lemma_displaced(packs, b, a, at);
            lemma_precedes_asymmetric(b[at].name, a[at].name);
        }
    }
}

/// Where two sortings of the same packs agree before the position `at` and
/// differ there, the pack that the second holds there has a name that sorts
/// before the name of the pack that the first holds there.
proof fn lemma_displaced(packs: Seq<PackView>, a: Seq<PackView>, b: Seq<PackView>, at: int)
    requires
        is_sorted_by_name(packs, a),
        is_sorted_by_name(packs, b),
        0 <= at < packs.len(),
        a.take(at) == b.take(at),
        a[at] != b[at],
    ensures
        precedes(b[at].name, a[at].name),
{
    let x = a[at];
    let pred = has_name(x.name);
    let shared = a.take(at);
    let rest_a = a.skip(at);
    let rest_b = b.skip(at);
    assert(a.filter(pred) == b.filter(pred)) by {
        assert(a.filter(pred) == packs.filter(pred));
        assert(b.filter(pred) == packs.filter(pred));
    }
    assert(a =~= shared + rest_a);
    assert(b =~= shared + rest_b);
    Seq::filter_distributes_over_add(shared, rest_a, pred);
    Seq::filter_distributes_over_add(shared, rest_b, pred);
    let head = shared.filter(pred);
    assert(rest_a.filter(pred) =~= rest_b.filter(pred)) by {
        let fa = rest_a.filter(pred);
        let fb = rest_b.filter(pred);
        assert((head + fa).len() == (head + fb).len());
        assert forall|j: int| 0 <= j < fa.len() implies fa[j] == fb[j] by {
            assert((head + fa)[head.len() + j] == fa[j]);
            assert((head + fb)[head.len() + j] == fb[j]);
        }
    }
    lemma_selection_starts(rest_a, pred);
    lemma_first_accepted(rest_a, pred, 0);
    assert(rest_a[0] == x);
    assert(first_accepted(rest_a, pred, 0) == 0);
    lemma_selection_starts(rest_b, pred);
    lemma_first_accepted(rest_b, pred, 0);
    let q = first_accepted(rest_b, pred, 0);
    assert(rest_b[q] == x);
    assert(rest_b[0] == b[at]);
    assert(q > 0);
    assert(b[at + q] == x);
    assert(!pred(rest_b[0]));
    assert(!precedes(b[at + q].name, b[at].name));
    lemma_precedes_total(b[at].name, x.name);
}

/// Sorting by name has one outcome.
pub proof fn lemma_sorted_by_name_unique(
    packs: Seq<PackView>,
    first: Seq<PackView>,
    second: Seq<PackView>,
)
    requires
        is_sorted_by_name(packs, first),
        is_sorted_by_name(packs, second),
    ensures
        first == second,
{
    lemma_sorted_agree(packs, first, second, packs.len() as int);
    assert(first =~= second);
}

/// The packs of the snapshot as shared values, in the order of their names.
/// Packs of the same name keep the order of the snapshot.
pub fn sort_packs(packs: &Vec<Pack>) -> (sorted: Vec<Arc<Pack>>)
    ensures
        is_sorted_by_name(packs_view(packs@), shared_packs_view(sorted@)),
        sorted.len() == packs.len(),
{
    let ghost input = packs_view(packs@);
    let mut sorted: Vec<Arc<Pack>> = Vec::new();
    let mut i: usize = 0;
    proof {
        assert(input.take(0) =~= Seq::<PackView>::empty());
        assert(shared_packs_view(sorted@) =~= Seq::<PackView>::empty());
    }
    while i < packs.len()
        invariant
            i <= packs.len(),
            input == packs_view(packs@),
            sorted.len() == i,
            is_sorted_by_name(input.take(i as int), shared_packs_view(sorted@)),
        decreases packs.len() - i,
    {
        let pack = packs[i].duplicate();
        let ghost x = pack@;
        let ghost before = shared_packs_view(sorted@);
        let mut pos: usize = 0;
        let mut placed = false;
        while !placed && pos < sorted.len()
            invariant
                pos <= sorted.len(),
                before == shared_packs_view(sorted@),
                x == pack@,
                forall|j: int| 0 <= j < pos ==> !precedes(x.name, before[j].name),
                placed ==> pos < sorted.len() && precedes(x.name, before[pos as int].name),
            decreases sorted.len() - pos + if placed { 0int } else { 1int },
        {
            assert(before[pos as int].name == sorted[pos as int].name@);
            if sorts_before(pack.name.as_str(), sorted[pos].name.as_str()) {
                placed = true;
            } else {
                pos = pos + 1;
            }
        }
        let shared = Arc::new(pack);
        proof {
            lemma_place_pack(before, pos as int, x);
            assert(shared_packs_view(sorted@.insert(pos as int, shared)) =~= before.insert(
                pos as int,
                x,
            ));
            assert(x == input[i as int]);
            assert(input.take(i + 1) =~= input.take(i as int).push(x));
            assert forall|name: Seq<char>| #[trigger]
                before.insert(pos as int, x).filter(has_name(name)) == input.take(i + 1).filter(
                    has_name(name),
                ) by {
                input.take(i as int).lemma_filter_push(x, has_name(name));
                assert(before.filter(has_name(name)) == input.take(i as int).filter(
                    has_name(name),
                ));
            }
        }
        sorted.insert(pos, shared);
        i = i + 1;
    }
    proof {
        assert(input.take(packs.len() as int) =~= input);
    }
    sorted
}

} // verus!
