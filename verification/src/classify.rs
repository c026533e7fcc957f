//! Classification of the pairwise violation summaries by path: every
//! summary is filed under each ancestor path of its defining pack, as coming
//! in, and under each ancestor path of its referencing pack, as going out;
//! under a path that contains both packs it counts as contained.

use crate::path_key::{
    chain_paths, contained, dotted, lemma_chain_paths_are_ancestors, lemma_chain_paths_distinct,
    pairs_view, path_chain,
};
use crate::pks::{
    belongs, belongs_fn, bucket_of, lemma_sum_counts_filter, part_contained_in_other_path,
    sum_counts, touches, Bucket, PackDependentViolation, PathViolations,
};
use crate::pks_tree_node::{pack_name_to_node_names, prepend_dot_to_path};
use crate::shared::arc_clone;
use crate::str_map::StrMap;
use std::sync::Arc;
use vstd::prelude::*;

verus! {

/// Some violation of `all` concerns `path`.
pub open spec fn touched(path: Seq<char>, all: Seq<Arc<PackDependentViolation>>) -> bool {
    exists|i: int| 0 <= i < all.len() && touches(path, all[i])
}

/// `m` is the classification of `all`: it has an entry for each path that
/// contains a pack of some violation, which holds the four lists of that path
/// with their counts.
pub open spec fn is_classification(
    all: Seq<Arc<PackDependentViolation>>,
    m: StrMap<Arc<PathViolations>>,
) -> bool {
    &&& m.wf()
    &&& forall|p: Seq<char>| #[trigger] m@.dom().contains(p) <==> touched(p, all)
    &&& forall|p: Seq<char>| #[trigger] m@.dom().contains(p) ==> m@[p].classifies(p, all)
}

/// The in-lists are filled while the ancestors of the defining pack are
/// walked, the out-lists while those of the referencing pack are walked.
pub open spec fn is_in(b: Bucket) -> bool {
    b == Bucket::UncontainedIn || b == Bucket::ContainedIn
}

/// What the violation at hand has added to the list `b` of `path` so far,
/// where `done_in` and `done_out` are the ancestor paths of its two packs that
/// were walked already.
pub open spec fn pending(
    b: Bucket,
    path: Seq<char>,
    v: Arc<PackDependentViolation>,
    done_in: Seq<Seq<char>>,
    done_out: Seq<Seq<char>>,
) -> Seq<Arc<PackDependentViolation>> {
    if belongs(b, path, v) && ((is_in(b) && done_in.contains(path)) || (!is_in(b)
        && done_out.contains(path))) {
        seq![v]
    } else {
        Seq::empty()
    }
}

/// The list `b` of `path` after `n` violations were filed and the next one in
/// part.
pub open spec fn expected(
    b: Bucket,
    path: Seq<char>,
    all: Seq<Arc<PackDependentViolation>>,
    n: int,
    done_in: Seq<Seq<char>>,
    done_out: Seq<Seq<char>>,
) -> Seq<Arc<PackDependentViolation>> {
    if 0 <= n < all.len() {
        bucket_of(b, path, all.take(n)) + pending(b, path, all[n], done_in, done_out)
    } else {
        bucket_of(b, path, all.take(n))
    }
}

pub open spec fn entry_in_progress(
    pv: PathViolations,
    path: Seq<char>,
    all: Seq<Arc<PackDependentViolation>>,
    n: int,
    done_in: Seq<Seq<char>>,
    done_out: Seq<Seq<char>>,
) -> bool {
    &&& pv.path@ == path
    &&& pv.bucket(Bucket::UncontainedIn) =~= expected(
        Bucket::UncontainedIn,
        path,
        all,
        n,
        done_in,
        done_out,
    )
    &&& pv.bucket(Bucket::UncontainedOut) =~= expected(
        Bucket::UncontainedOut,
        path,
        all,
        n,
        done_in,
        done_out,
    )
    &&& pv.bucket(Bucket::ContainedIn) =~= expected(
        Bucket::ContainedIn,
        path,
        all,
        n,
        done_in,
        done_out,
    )
    &&& pv.bucket(Bucket::ContainedOut) =~= expected(
        Bucket::ContainedOut,
        path,
        all,
        n,
        done_in,
        done_out,
    )
}

/// One of the first `n` violations concerns `path`.
pub open spec fn touched_before(
    path: Seq<char>,
    all: Seq<Arc<PackDependentViolation>>,
    n: int,
) -> bool {
    exists|i: int| 0 <= i < n && i < all.len() && touches(path, all[i])
}

/// The state of the classification after `n` violations were filed and the
/// next one in part.
pub open spec fn in_progress(
    keys: Seq<Seq<char>>,
    values: Seq<PathViolations>,
    all: Seq<Arc<PackDependentViolation>>,
    n: int,
    done_in: Seq<Seq<char>>,
    done_out: Seq<Seq<char>>,
) -> bool {
    &&& keys.len() == values.len()
    &&& keys.no_duplicates()
    &&& forall|i: int|
        0 <= i < keys.len() ==> entry_in_progress(
            #[trigger] values[i],
            keys[i],
            all,
            n,
            done_in,
            done_out,
        )
    &&& forall|p: Seq<char>| #[trigger]
        keys.contains(p) <==> (touched_before(p, all, n) || done_in.contains(p)
            || done_out.contains(p))
}

/// What `after` holds beyond `prior`: `v` at the end of the list `b`.
pub open spec fn grew(
    prior: spec_fn(Bucket) -> Seq<Arc<PackDependentViolation>>,
    after: PathViolations,
    b: Bucket,
    v: Arc<PackDependentViolation>,
) -> bool {
    &&& after.bucket(Bucket::UncontainedIn) =~= prior(Bucket::UncontainedIn) + (if b
        == Bucket::UncontainedIn {
        seq![v]
    } else {
        Seq::empty()
    })
    &&& after.bucket(Bucket::UncontainedOut) =~= prior(Bucket::UncontainedOut) + (if b
        == Bucket::UncontainedOut {
        seq![v]
    } else {
        Seq::empty()
    })
    &&& after.bucket(Bucket::ContainedIn) =~= prior(Bucket::ContainedIn) + (if b
        == Bucket::ContainedIn {
        seq![v]
    } else {
        Seq::empty()
    })
    &&& after.bucket(Bucket::ContainedOut) =~= prior(Bucket::ContainedOut) + (if b
        == Bucket::ContainedOut {
        seq![v]
    } else {
        Seq::empty()
    })
}

/// The lists of the `i`-th of `values`, or empty lists where there is no such
/// entry.
pub open spec fn lists_at(values: Seq<PathViolations>, i: int) -> spec_fn(Bucket) -> Seq<
    Arc<PackDependentViolation>,
> {
    |b: Bucket|
        if 0 <= i < values.len() {
            values[i].bucket(b)
        } else {
            Seq::empty()
        }
}

/// How filing `v` in the list `b` of `part` changes the entries.
pub open spec fn filed(
    keys0: Seq<Seq<char>>,
    values0: Seq<PathViolations>,
    keys1: Seq<Seq<char>>,
    values1: Seq<PathViolations>,
    part: Seq<char>,
    b: Bucket,
    v: Arc<PackDependentViolation>,
) -> bool {
    &&& keys1 == if keys0.contains(part) {
        keys0
    } else {
        keys0.push(part)
    }
    &&& keys1.len() == values1.len()
    &&& keys1.no_duplicates()
    &&& forall|i: int|
        0 <= i < keys1.len() && keys1[i] != part ==> i < keys0.len() && #[trigger] values1[i]
            == values0[i]
    &&& forall|i: int|
        0 <= i < keys1.len() && keys1[i] == part ==> (#[trigger] values1[i]).path@ == part && grew(
            lists_at(values0, i),
            values1[i],
            b,
            v,
        )
}

/// A path that none of the first `n` violations concerns has empty lists.
pub proof fn lemma_untouched_is_empty(
    b: Bucket,
    path: Seq<char>,
    all: Seq<Arc<PackDependentViolation>>,
    n: int,
)
    requires
        0 <= n <= all.len(),
        !touched_before(path, all, n),
    ensures
        bucket_of(b, path, all.take(n)) == Seq::<Arc<PackDependentViolation>>::empty(),
    decreases n,
{
    if n == 0 {
        reveal(Seq::filter);
        assert(all.take(0).filter(belongs_fn(b, path)) =~= Seq::empty());
    } else {
        assert(!touched_before(path, all, n - 1)) by {
            if touched_before(path, all, n - 1) {
                let i = choose|i: int| 0 <= i < n - 1 && i < all.len() && touches(path, all[i]);
                assert(0 <= i < n && touches(path, all[i]));
            }
        }
        lemma_untouched_is_empty(b, path, all, n - 1);
        assert(all.take(n) =~= all.take(n - 1).push(all[n - 1]));
        all.take(n - 1).lemma_filter_push(all[n - 1], belongs_fn(b, path));
        assert(!touches(path, all[n - 1]));
    }
}

/// Filing the violation at hand under one more ancestor path keeps the state
/// of the classification.
pub proof fn lemma_filed_step(
    keys0: Seq<Seq<char>>,
    values0: Seq<PathViolations>,
    keys1: Seq<Seq<char>>,
    values1: Seq<PathViolations>,
    all: Seq<Arc<PackDependentViolation>>,
    n: int,
    done_in: Seq<Seq<char>>,
    done_out: Seq<Seq<char>>,
    part: Seq<char>,
    b: Bucket,
)
    requires
        0 <= n < all.len(),
        in_progress(keys0, values0, all, n, done_in, done_out),
        filed(keys0, values0, keys1, values1, part, b, all[n]),
        belongs(b, part, all[n]),
        is_in(b) ==> !done_in.contains(part),
        !is_in(b) ==> !done_out.contains(part),
    ensures
        is_in(b) ==> in_progress(keys1, values1, all, n, done_in.push(part), done_out),
        !is_in(b) ==> in_progress(keys1, values1, all, n, done_in, done_out.push(part)),
{
    let v = all[n];
    let next_in = if is_in(b) {
        done_in.push(part)
    } else {
        done_in
    };
    let next_out = if is_in(b) {
        done_out
    } else {
        done_out.push(part)
    };
    assert forall|p: Seq<char>| next_in.contains(p) <==> (done_in.contains(p) || (is_in(b) && p
        == part)) by {
        if is_in(b) {
            if done_in.contains(p) {
                let i = choose|i: int| 0 <= i < done_in.len() && done_in[i] == p;
                assert(next_in[i] == p);
            }
            if p == part {
                assert(next_in[done_in.len() as int] == p);
            }
        }
    }
    assert forall|p: Seq<char>| next_out.contains(p) <==> (done_out.contains(p) || (!is_in(b) && p
        == part)) by {
        if !is_in(b) {
            if done_out.contains(p) {
                let i = choose|i: int| 0 <= i < done_out.len() && done_out[i] == p;
                assert(next_out[i] == p);
            }
            if p == part {
                assert(next_out[done_out.len() as int] == p);
            }
        }
    }
    assert forall|i: int| 0 <= i < keys1.len() implies entry_in_progress(
        #[trigger] values1[i],
        keys1[i],
        all,
        n,
        next_in,
        next_out,
    ) by {
        if keys1[i] != part {
            assert(values1[i] == values0[i]);
            assert(keys1[i] == keys0[i]);
            assert(entry_in_progress(values0[i], keys0[i], all, n, done_in, done_out));
        } else {
            assert(grew(lists_at(values0, i), values1[i], b, v));
            if i < keys0.len() {
                assert(keys0[i] == part);
                assert(entry_in_progress(values0[i], keys0[i], all, n, done_in, done_out));
            } else {
                assert(!keys0.contains(part));
                assert(!touched_before(part, all, n));
                lemma_untouched_is_empty(Bucket::UncontainedIn, part, all, n);
                lemma_untouched_is_empty(Bucket::UncontainedOut, part, all, n);
                lemma_untouched_is_empty(Bucket::ContainedIn, part, all, n);
                lemma_untouched_is_empty(Bucket::ContainedOut, part, all, n);
            }
        }
    }
    assert forall|p: Seq<char>| #[trigger]
        keys1.contains(p) <==> (touched_before(p, all, n) || next_in.contains(p)
            || next_out.contains(p)) by {
        if keys0.contains(p) {
            let i = choose|i: int| 0 <= i < keys0.len() && keys0[i] == p;
            assert(keys1[i] == p);
        }
        if keys1.contains(p) {
            let i = choose|i: int| 0 <= i < keys1.len() && keys1[i] == p;
            if i < keys0.len() {
                assert(keys0[i] == p);
            }
        }
        if p == part {
            if keys0.contains(part) {
            } else {
                assert(keys1[keys0.len() as int] == part);
            }
        }
    }
}

/// Once all ancestor paths of both packs of the violation at hand were
/// walked, the violation is filed.
pub proof fn lemma_violation_done(
    keys: Seq<Seq<char>>,
    values: Seq<PathViolations>,
    all: Seq<Arc<PackDependentViolation>>,
    n: int,
    done_in: Seq<Seq<char>>,
    done_out: Seq<Seq<char>>,
)
    requires
        0 <= n < all.len(),
        in_progress(keys, values, all, n, done_in, done_out),
        forall|p: Seq<char>|
            done_in.contains(p) <==> contained(p, dotted(all[n].defining_pack_name@)),
        forall|p: Seq<char>|
            done_out.contains(p) <==> contained(p, dotted(all[n].referencing_pack_name@)),
    ensures
        in_progress(keys, values, all, n + 1, Seq::empty(), Seq::empty()),
{
    let none = Seq::<Seq<char>>::empty();
    let v = all[n];
    assert(all.take(n + 1) =~= all.take(n).push(v));
    assert forall|i: int| 0 <= i < keys.len() implies entry_in_progress(
        #[trigger] values[i],
        keys[i],
        all,
        n + 1,
        none,
        none,
    ) by {
        let path = keys[i];
        assert(entry_in_progress(values[i], path, all, n, done_in, done_out));
        all.take(n).lemma_filter_push(v, belongs_fn(Bucket::UncontainedIn, path));
        all.take(n).lemma_filter_push(v, belongs_fn(Bucket::UncontainedOut, path));
        all.take(n).lemma_filter_push(v, belongs_fn(Bucket::ContainedIn, path));
        all.take(n).lemma_filter_push(v, belongs_fn(Bucket::ContainedOut, path));
    }
    assert forall|p: Seq<char>| #[trigger]
        keys.contains(p) <==> (touched_before(p, all, n + 1) || none.contains(p) || none.contains(
            p,
        )) by {
        if touched_before(p, all, n + 1) {
            let i = choose|i: int| 0 <= i < n + 1 && i < all.len() && touches(p, all[i]);
            if i < n {
                assert(touched_before(p, all, n));
            }
        }
        if touched_before(p, all, n) {
            let i = choose|i: int| 0 <= i < n && i < all.len() && touches(p, all[i]);
            assert(0 <= i < n + 1 && touches(p, all[i]));
        }
        if touches(p, v) {
            assert(0 <= n < n + 1 && touches(p, all[n]));
        }
    }
}

/// Files `v` in the list `b` of the path `part`, with a new entry for the
/// path where it has none yet.
fn add_to_bucket(
    acc: &mut StrMap<PathViolations>,
    part: &String,
    b: Bucket,
    v: &Arc<PackDependentViolation>,
)
    requires
        old(acc).wf(),
        forall|i: int|
            0 <= i < old(acc).keys().len() ==> (#[trigger] old(acc).values()[i]).path@ == old(
                acc,
            ).keys()[i],
    ensures
        final(acc).wf(),
        filed(
            old(acc).keys(),
            old(acc).values(),
            final(acc).keys(),
            final(acc).values(),
            part@,
            b,
            *v,
        ),
{
    let ghost keys0 = acc.keys();
    let ghost values0 = acc.values();
    match acc.find(part.as_str()) {
        Some(i) => {
            let pv = acc.value_mut(i);
            pv.push(b, arc_clone(v));
            proof {
                let keys1 = acc.keys();
                let values1 = acc.values();
                assert(keys0.contains(part@));
                assert forall|k: int|
                    0 <= k < keys1.len() && keys1[k] == part@ implies (#[trigger] values1[k]).path@
                    == part@ && grew(lists_at(values0, k), values1[k], b, *v) by {
                    assert(k == i);
                }
            }
        },
        None => {
            let mut pv = PathViolations::new(part.clone());
            pv.push(b, arc_clone(v));
            acc.insert_new(part.clone(), pv);
            proof {
                let keys1 = acc.keys();
                let values1 = acc.values();
                assert forall|k: int|
                    0 <= k < keys1.len() && keys1[k] == part@ implies (#[trigger] values1[k]).path@
                    == part@ && grew(lists_at(values0, k), values1[k], b, *v) by {
                    if k < keys0.len() {
                        assert(keys0[k] == part@);
                    }
                }
            }
        },
    }
}

/// The dotted form of a name is dotted already.
pub proof fn lemma_dotted_twice(name: Seq<char>)
    ensures
        dotted(dotted(name)) == dotted(name),
{
    let d = dotted(name);
    assert(d.len() > 0 && d[0] == '.');
}

/// Classifies the pairwise summaries `all` by path.
pub fn classify(all: &Vec<Arc<PackDependentViolation>>) -> (m: StrMap<Arc<PathViolations>>)
    requires
        forall|i: int| 0 <= i < all.len() ==> (#[trigger] all[i]).wf(),
        sum_counts(all@) <= usize::MAX,
    ensures
        is_classification(all@, m),
{
    let ghost none = Seq::<Seq<char>>::empty();
    let mut acc: StrMap<PathViolations> = StrMap::new();
    let mut n: usize = 0;
    proof {
        assert forall|i: int| 0 <= i < acc.keys().len() implies entry_in_progress(
            #[trigger] acc.values()[i],
            acc.keys()[i],
            all@,
            0,
            none,
            none,
        ) by {}
    }
    while n < all.len()
        invariant
            n <= all.len(),
            none == Seq::<Seq<char>>::empty(),
            acc.wf(),
            in_progress(acc.keys(), acc.values(), all@, n as int, none, none),
        decreases all.len() - n,
    {
        let violation = &all[n];
        let defining = prepend_dot_to_path(violation.defining_pack_name.as_str());
        let referencing = prepend_dot_to_path(violation.referencing_pack_name.as_str());
        let ghost d = dotted(violation.defining_pack_name@);
        let ghost r = dotted(violation.referencing_pack_name@);
        let ghost walk_in = chain_paths(path_chain(d));
        let ghost walk_out = chain_paths(path_chain(r));
        proof {
            lemma_dotted_twice(violation.defining_pack_name@);
            lemma_dotted_twice(violation.referencing_pack_name@);
            lemma_chain_paths_distinct(d);
            lemma_chain_paths_distinct(r);
            assert(walk_in.take(0) =~= none);
            assert(walk_out.take(0) =~= none);
        }
        let chain_in = pack_name_to_node_names(defining.as_str());
        let mut j: usize = 0;
        while j < chain_in.len()
            invariant
                n < all.len(),
                j <= chain_in.len(),
                violation == all[n as int],
                d == dotted(violation.defining_pack_name@),
                r == dotted(violation.referencing_pack_name@),
                referencing@ == r,
                walk_in == chain_paths(path_chain(d)),
                walk_in.no_duplicates(),
                pairs_view(chain_in@) == path_chain(d),
                none == Seq::<Seq<char>>::empty(),
                acc.wf(),
                in_progress(acc.keys(), acc.values(), all@, n as int, walk_in.take(j as int), none),
            decreases chain_in.len() - j,
        {
            let part = &chain_in[j].0;
            let ghost keys0 = acc.keys();
            let ghost values0 = acc.values();
            proof {
                assert(part@ == pairs_view(chain_in@)[j as int].0);
                assert(part@ == walk_in[j as int]);
                lemma_chain_paths_are_ancestors(part@, d);
                assert(walk_in.contains(part@));
                assert(!walk_in.take(j as int).contains(part@)) by {
                    if walk_in.take(j as int).contains(part@) {
                        let i = choose|i: int|
                            0 <= i < walk_in.take(j as int).len() && walk_in.take(j as int)[i]
                                == part@;
                        assert(walk_in[i] == walk_in[j as int]);
                    }
                }
                assert(walk_in.take(j as int).push(part@) =~= walk_in.take(j + 1));
            }
            let b = if part_contained_in_other_path(part.as_str(), &referencing) {
                Bucket::ContainedIn
            } else {
                Bucket::UncontainedIn
            };
            add_to_bucket(&mut acc, part, b, violation);
            proof {
                lemma_filed_step(
                    keys0,
                    values0,
                    acc.keys(),
                    acc.values(),
                    all@,
                    n as int,
                    walk_in.take(j as int),
                    none,
                    part@,
                    b,
                );
            }
            j = j + 1;
        }
        proof {
            assert(walk_in.take(chain_in.len() as int) =~= walk_in);
        }
        let chain_out = pack_name_to_node_names(referencing.as_str());
        let mut j: usize = 0;
        while j < chain_out.len()
            invariant
                n < all.len(),
                j <= chain_out.len(),
                violation == all[n as int],
                d == dotted(violation.defining_pack_name@),
                r == dotted(violation.referencing_pack_name@),
                defining@ == d,
                walk_in == chain_paths(path_chain(d)),
                walk_out == chain_paths(path_chain(r)),
                walk_out.no_duplicates(),
                pairs_view(chain_out@) == path_chain(r),
                none == Seq::<Seq<char>>::empty(),
                acc.wf(),
                in_progress(
                    acc.keys(),
                    acc.values(),
                    all@,
                    n as int,
                    walk_in,
                    walk_out.take(j as int),
                ),
            decreases chain_out.len() - j,
        {
            let part = &chain_out[j].0;
            let ghost keys0 = acc.keys();
            let ghost values0 = acc.values();
            proof {
                assert(part@ == pairs_view(chain_out@)[j as int].0);
                assert(part@ == walk_out[j as int]);
                lemma_chain_paths_are_ancestors(part@, r);
                assert(walk_out.contains(part@));
                assert(!walk_out.take(j as int).contains(part@)) by {
                    if walk_out.take(j as int).contains(part@) {
                        let i = choose|i: int|
                            0 <= i < walk_out.take(j as int).len() && walk_out.take(j as int)[i]
                                == part@;
                        assert(walk_out[i] == walk_out[j as int]);
                    }
                }
                assert(walk_out.take(j as int).push(part@) =~= walk_out.take(j + 1));
            }
            let b = if part_contained_in_other_path(part.as_str(), &defining) {
                Bucket::ContainedOut
            } else {
                Bucket::UncontainedOut
            };
            add_to_bucket(&mut acc, part, b, violation);
            proof {
                lemma_filed_step(
                    keys0,
                    values0,
                    acc.keys(),
                    acc.values(),
                    all@,
                    n as int,
                    walk_in,
                    walk_out.take(j as int),
                    part@,
                    b,
                );
            }
            j = j + 1;
        }
        proof {
            assert(walk_out.take(chain_out.len() as int) =~= walk_out);
            assert forall|p: Seq<char>| walk_in.contains(p) <==> contained(p, d) by {
                lemma_chain_paths_are_ancestors(p, d);
            }
            assert forall|p: Seq<char>| walk_out.contains(p) <==> contained(p, r) by {
                lemma_chain_paths_are_ancestors(p, r);
            }
            lemma_violation_done(acc.keys(), acc.values(), all@, n as int, walk_in, walk_out);
        }
        n = n + 1;
    }
    let ghost keys = acc.keys();
    let ghost filled = acc.values();
    let (paths, lists) = acc.into_parts();
    let mut counted: Vec<Arc<PathViolations>> = Vec::new();
    proof {
        assert(all@.take(all.len() as int) =~= all@);
    }
    for pv in it: lists
        invariant
            it.seq() == filled,
            keys.len() == filled.len(),
            counted.len() == it.index(),
            forall|i: int| 0 <= i < all.len() ==> (#[trigger] all[i]).wf(),
            sum_counts(all@) <= usize::MAX,
            forall|i: int|
                0 <= i < filled.len() ==> entry_in_progress(
                    #[trigger] filled[i],
                    keys[i],
                    all@,
                    all.len() as int,
                    none,
                    none,
                ),
            forall|i: int| 0 <= i < counted.len() ==> (#[trigger] counted[i]).classifies(keys[i], all@),
    {
        let ghost k = counted.len() as int;
        let ghost path = keys[k];
        let mut pv = pv;
        proof {
            assert(all@.take(all.len() as int) =~= all@);
            assert(entry_in_progress(filled[k], path, all@, all.len() as int, none, none));
            assert forall|b: Bucket| #[trigger] pv.bucket(b) == bucket_of(b, path, all@) by {
                match b {
                    Bucket::UncontainedIn => {},
                    Bucket::UncontainedOut => {},
                    Bucket::ContainedIn => {},
                    Bucket::ContainedOut => {},
                }
            }
            assert forall|b: Bucket| sum_counts(#[trigger] pv.bucket(b)) <= usize::MAX by {
                lemma_sum_counts_filter(all@, belongs_fn(b, path));
            }
            assert forall|b: Bucket, i: int| 0 <= i < pv.bucket(b).len() implies (
            #[trigger] pv.bucket(b)[i]).wf() by {
                let list = all@.filter(belongs_fn(b, path));
                assert(list.contains(list[i]));
                all@.lemma_filter_contains_rev(belongs_fn(b, path), list[i]);
                let src = choose|src: int| 0 <= src < all.len() && all[src] == list[i];
                assert(all[src].wf());
            }
        }
        pv.set_violations_count();
        counted.push(Arc::new(pv));
    }
    let m = StrMap::from_parts(paths, counted);
    proof {
        m.lemma_view();
        assert forall|p: Seq<char>| #[trigger] m@.dom().contains(p) <==> touched(p, all@) by {
            if touched(p, all@) {
                let i = choose|i: int| 0 <= i < all.len() && touches(p, all[i]);
                assert(touched_before(p, all@, all.len() as int));
            }
            if touched_before(p, all@, all.len() as int) {
                let i = choose|i: int| 0 <= i < all.len() && i < all.len() && touches(p, all[i]);
                assert(touched(p, all@));
            }
            assert(keys.contains(p) <==> m@.dom().contains(p));
        }
        assert forall|p: Seq<char>| #[trigger] m@.dom().contains(p) implies m@[p].classifies(
            p,
            all@,
        ) by {
            let i = choose|i: int| 0 <= i < keys.len() && keys[i] == p;
            assert(m@[m.keys()[i]] == m.values()[i]);
        }
    }
    m
}

} // verus!
