//! The dependents of each pack: the packs that name it among their
//! dependencies.

use crate::configuration::{Pack, PackView};
use crate::name_set::NameSet;
use crate::pack_order::shared_packs_view;
use crate::str_map::StrMap;
use std::sync::Arc;
use vstd::prelude::*;

verus! {

/// `name` is the name of a pack of `packs`, or stands among the dependencies
/// of one.
pub open spec fn is_named(packs: Seq<PackView>, name: Seq<char>) -> bool {
    exists|i: int|
        0 <= i < packs.len() && (packs[i].name == name || packs[i].dependencies.contains(name))
}

/// The pack named `dependent` names `name` among its dependencies.
pub open spec fn depends(packs: Seq<PackView>, dependent: Seq<char>, name: Seq<char>) -> bool {
    exists|i: int|
        0 <= i < packs.len() && packs[i].name == dependent && packs[i].dependencies.contains(name)
}

/// The names of the packs that depend on `name`.
pub open spec fn dependents_of(packs: Seq<PackView>, name: Seq<char>) -> Set<Seq<char>> {
    Set::new(|dependent: Seq<char>| depends(packs, dependent, name))
}

/// `m` is the index of dependents of `packs`: it has an entry for every pack,
/// also for one without dependents, and for every name that a pack depends
/// on; the entry holds the names of the packs that depend on the name.
pub open spec fn is_dependents_index(packs: Seq<PackView>, m: StrMap<NameSet>) -> bool {
    &&& m.wf()
    &&& forall|name: Seq<char>| #[trigger] m@.dom().contains(name) <==> is_named(packs, name)
    &&& forall|name: Seq<char>| #[trigger]
        m@.dom().contains(name) ==> m@[name].wf() && m@[name]@ == dependents_of(packs, name)
}

/// A pack that no pack depends on has an entry in the index all the same,
/// and the entry is empty.
pub proof fn lemma_pack_without_dependents(packs: Seq<PackView>, m: StrMap<NameSet>, i: int)
    requires
        is_dependents_index(packs, m),
        0 <= i < packs.len(),
        forall|j: int| 0 <= j < packs.len() ==> !packs[j].dependencies.contains(packs[i].name),
    ensures
        m@.dom().contains(packs[i].name),
        m@[packs[i].name]@ == Set::<Seq<char>>::empty(),
        m@[packs[i].name]@.len() == 0,
{
    let name = packs[i].name;
    assert(is_named(packs, name));
    assert(m@.dom().contains(name));
    assert(dependents_of(packs, name) =~= Set::<Seq<char>>::empty());
}

/// A name on which exactly the two packs named `a` and `b` depend has these
/// two dependents.
pub proof fn lemma_two_dependents(
    packs: Seq<PackView>,
    m: StrMap<NameSet>,
    name: Seq<char>,
    a: Seq<char>,
    b: Seq<char>,
)
    requires
        is_dependents_index(packs, m),
        a != b,
        depends(packs, a, name),
        depends(packs, b, name),
        forall|other: Seq<char>| depends(packs, other, name) ==> other == a || other == b,
    ensures
        m@.dom().contains(name),
        m@[name]@ == set![a, b],
        m@[name]@.len() == 2,
{
    let i = choose|i: int|
        0 <= i < packs.len() && packs[i].name == a && packs[i].dependencies.contains(name);
    assert(packs[i].name == name || packs[i].dependencies.contains(name));
    assert(is_named(packs, name));
    assert(m@.dom().contains(name));
    assert(dependents_of(packs, name) =~= set![a, b]);
    assert(set![a, b] =~= Set::<Seq<char>>::empty().insert(a).insert(b));
    assert(set![a, b].len() == 2) by {
        broadcast use vstd::set::group_set_axioms;

    }
}

/// The index of dependents does not depend on the order of the packs.
pub proof fn lemma_index_of_same_packs(a: Seq<PackView>, b: Seq<PackView>, m: StrMap<NameSet>)
    requires
        forall|x: PackView| a.contains(x) <==> b.contains(x),
        is_dependents_index(a, m),
    ensures
        is_dependents_index(b, m),
{
    assert forall|name: Seq<char>| is_named(a, name) <==> is_named(b, name) by {
        if is_named(a, name) {
            let i = choose|i: int|
                0 <= i < a.len() && (a[i].name == name || a[i].dependencies.contains(name));
            assert(a.contains(a[i]));
            let j = choose|j: int| 0 <= j < b.len() && b[j] == a[i];
            assert(b[j].name == name || b[j].dependencies.contains(name));
        }
        if is_named(b, name) {
            let i = choose|i: int|
                0 <= i < b.len() && (b[i].name == name || b[i].dependencies.contains(name));
            assert(b.contains(b[i]));
            let j = choose|j: int| 0 <= j < a.len() && a[j] == b[i];
            assert(a[j].name == name || a[j].dependencies.contains(name));
        }
    }
    assert forall|name: Seq<char>| dependents_of(a, name) == dependents_of(b, name) by {
        assert forall|dependent: Seq<char>| depends(a, dependent, name) <==> depends(
            b,
            dependent,
            name,
        ) by {
            if depends(a, dependent, name) {
                let i = choose|i: int|
                    0 <= i < a.len() && a[i].name == dependent && a[i].dependencies.contains(name);
                assert(a.contains(a[i]));
                let j = choose|j: int| 0 <= j < b.len() && b[j] == a[i];
                assert(b[j].name == dependent && b[j].dependencies.contains(name));
            }
            if depends(b, dependent, name) {
                let i = choose|i: int|
                    0 <= i < b.len() && b[i].name == dependent && b[i].dependencies.contains(name);
                assert(b.contains(b[i]));
                let j = choose|j: int| 0 <= j < a.len() && a[j] == b[i];
                assert(a[j].name == dependent && a[j].dependencies.contains(name));
            }
        }
        assert(dependents_of(a, name) =~= dependents_of(b, name));
    }
}

/// What is known of the names after `i` packs were entered, and of the next
/// pack its own name (`own`) and the first `j` of its dependencies.
pub open spec fn named_so_far(
    packs: Seq<PackView>,
    i: int,
    own: bool,
    j: int,
    name: Seq<char>,
) -> bool {
    ||| is_named(packs.take(i), name)
    ||| (0 <= i < packs.len() && own && packs[i].name == name)
    ||| (0 <= i < packs.len() && packs[i].dependencies.take(j).contains(name))
}

/// The dependents of `name` that are known at that point.
pub open spec fn dependents_so_far(packs: Seq<PackView>, i: int, j: int, name: Seq<char>) -> Set<
    Seq<char>,
> {
    Set::new(
        |dependent: Seq<char>|
            depends(packs.take(i), dependent, name) || (0 <= i < packs.len() && packs[i].name
                == dependent && packs[i].dependencies.take(j).contains(name)),
    )
}

/// The state of the index at that point.
pub open spec fn index_in_progress(
    keys: Seq<Seq<char>>,
    values: Seq<NameSet>,
    packs: Seq<PackView>,
    i: int,
    own: bool,
    j: int,
) -> bool {
    &&& keys.len() == values.len()
    &&& keys.no_duplicates()
    &&& forall|k: int|
        0 <= k < keys.len() ==> (#[trigger] values[k]).wf() && values[k]@ =~= dependents_so_far(
            packs,
            i,
            j,
            keys[k],
        )
    &&& forall|name: Seq<char>| #[trigger]
        keys.contains(name) <==> named_so_far(packs, i, own, j, name)
}

/// A name that is not known yet has no dependents yet.
pub proof fn lemma_unnamed_has_no_dependents(
    packs: Seq<PackView>,
    i: int,
    own: bool,
    j: int,
    name: Seq<char>,
)
    requires
        0 <= i <= packs.len(),
        !named_so_far(packs, i, own, j, name),
    ensures
        dependents_so_far(packs, i, j, name) == Set::<Seq<char>>::empty(),
{
    assert forall|dependent: Seq<char>| !dependents_so_far(packs, i, j, name).contains(
        dependent,
    ) by {
        if depends(packs.take(i), dependent, name) {
            let k = choose|k: int|
                0 <= k < packs.take(i).len() && packs.take(i)[k].name == dependent && packs.take(
                    i,
                )[k].dependencies.contains(name);
            assert(is_named(packs.take(i), name));
        }
    }
    assert(dependents_so_far(packs, i, j, name) =~= Set::empty());
}

/// When a pack is done, what is known of it is known of the packs entered.
pub proof fn lemma_pack_done(packs: Seq<PackView>, i: int, name: Seq<char>)
    requires
        0 <= i < packs.len(),
    ensures
        named_so_far(packs, i, true, packs[i].dependencies.len() as int, name) <==> named_so_far(
            packs,
            i + 1,
            false,
            0,
            name,
        ),
        dependents_so_far(packs, i, packs[i].dependencies.len() as int, name) == dependents_so_far(
            packs,
            i + 1,
            0,
            name,
        ),
{
    let deps = packs[i].dependencies;
    let now = packs.take(i);
    let next = packs.take(i + 1);
    assert(deps.take(deps.len() as int) =~= deps);
    assert(next =~= now.push(packs[i]));
    if i + 1 < packs.len() {
        assert(packs[i + 1].dependencies.take(0) =~= Seq::<Seq<char>>::empty());
    }
    if is_named(now, name) {
        let k = choose|k: int|
            0 <= k < now.len() && (now[k].name == name || now[k].dependencies.contains(name));
        assert(next[k] == now[k]);
        assert(is_named(next, name));
    }
    if packs[i].name == name || deps.contains(name) {
        assert(next[i] == packs[i]);
        assert(is_named(next, name));
    }
    if is_named(next, name) {
        let k = choose|k: int|
            0 <= k < next.len() && (next[k].name == name || next[k].dependencies.contains(name));
        if k < i {
            assert(now[k] == next[k]);
            assert(is_named(now, name));
        }
    }
    let a = dependents_so_far(packs, i, deps.len() as int, name);
    let b = dependents_so_far(packs, i + 1, 0, name);
    assert forall|dependent: Seq<char>| a.contains(dependent) <==> b.contains(dependent) by {
        if depends(now, dependent, name) {
            let k = choose|k: int|
                0 <= k < now.len() && now[k].name == dependent && now[k].dependencies.contains(
                    name,
                );
            assert(next[k] == now[k]);
            assert(depends(next, dependent, name));
        }
        if packs[i].name == dependent && deps.contains(name) {
            assert(next[i] == packs[i]);
            assert(depends(next, dependent, name));
        }
        if depends(next, dependent, name) {
            let k = choose|k: int|
                0 <= k < next.len() && next[k].name == dependent && next[k].dependencies.contains(
                    name,
                );
            if k < i {
                assert(now[k] == next[k]);
                assert(depends(now, dependent, name));
            }
        }
    }
    assert(a =~= b);
}

/// What one more dependency of the pack at hand adds: the pack becomes a
/// dependent of that name, and of no other.
pub proof fn lemma_dependency_step(packs: Seq<PackView>, i: int, j: int, name: Seq<char>)
    requires
        0 <= i < packs.len(),
        0 <= j < packs[i].dependencies.len(),
    ensures
        dependents_so_far(packs, i, j + 1, name) == if packs[i].dependencies[j] == name {
            dependents_so_far(packs, i, j, name).insert(packs[i].name)
        } else {
            dependents_so_far(packs, i, j, name)
        },
        forall|own: bool|
            named_so_far(packs, i, own, j + 1, name) <==> (named_so_far(packs, i, own, j, name)
                || packs[i].dependencies[j] == name),
{
    let deps = packs[i].dependencies;
    assert(deps.take(j + 1) =~= deps.take(j).push(deps[j]));
    assert(deps.take(j + 1).contains(name) <==> (deps.take(j).contains(name) || deps[j] == name))
        by {
        if deps.take(j).contains(name) {
            let k = choose|k: int| 0 <= k < deps.take(j).len() && deps.take(j)[k] == name;
            assert(deps.take(j + 1)[k] == name);
        }
        if deps[j] == name {
            assert(deps.take(j + 1)[j] == name);
        }
    }
    let a = dependents_so_far(packs, i, j + 1, name);
    let b = if deps[j] == name {
        dependents_so_far(packs, i, j, name).insert(packs[i].name)
    } else {
        dependents_so_far(packs, i, j, name)
    };
    assert(a =~= b);
}

/// Makes sure that `m` has an entry for `name`; a new entry is empty.
fn ensure_entry(m: &mut StrMap<NameSet>, name: &String) -> (at: usize)
    requires
        old(m).wf(),
    ensures
        final(m).wf(),
        at < final(m).keys().len(),
        final(m).keys()[at as int] == name@,
        final(m).keys() == if old(m).keys().contains(name@) {
            old(m).keys()
        } else {
            old(m).keys().push(name@)
        },
        final(m).values() == if old(m).keys().contains(name@) {
            old(m).values()
        } else {
            old(m).values().push(final(m).values()[at as int])
        },
        !old(m).keys().contains(name@) ==> final(m).values()[at as int].wf(),
        !old(m).keys().contains(name@) ==> final(m).values()[at as int]@ == Set::<
            Seq<char>,
        >::empty(),
{
    match m.find(name.as_str()) {
        Some(at) => at,
        None => {
            let at = m.len();
            m.insert_new(name.clone(), NameSet::new());
            at
        },
    }
}

/// Builds the index of dependents of `packs`.
pub fn build_dependents(packs: &Vec<Arc<Pack>>) -> (m: StrMap<NameSet>)
    ensures
        is_dependents_index(shared_packs_view(packs@), m),
{
    let ghost all = shared_packs_view(packs@);
    let mut m: StrMap<NameSet> = StrMap::new();
    let mut i: usize = 0;
    proof {
        assert(all.take(0) =~= Seq::<PackView>::empty());
        if packs.len() > 0 {
            assert(all[0].dependencies.take(0) =~= Seq::<Seq<char>>::empty());
        }
    }
    while i < packs.len()
        invariant
            i <= packs.len(),
            all == shared_packs_view(packs@),
            m.wf(),
            index_in_progress(m.keys(), m.values(), all, i as int, false, 0),
        decreases packs.len() - i,
    {
        let pack = &packs[i];
        let ghost p = all[i as int];
        let ghost deps = p.dependencies;
        proof {
            assert(p == pack@);
            assert(deps.take(0) =~= Seq::<Seq<char>>::empty());
        }
        let ghost keys0 = m.keys();
        let ghost values0 = m.values();
        let _ = ensure_entry(&mut m, &pack.name);
        proof {
            let keys1 = m.keys();
            let values1 = m.values();
            if !keys0.contains(p.name) {
                lemma_unnamed_has_no_dependents(all, i as int, false, 0, p.name);
            }
            assert forall|k: int| 0 <= k < keys1.len() implies (#[trigger] values1[k]).wf()
                && values1[k]@ =~= dependents_so_far(all, i as int, 0, keys1[k]) by {
                if k < keys0.len() {
                    assert(values1[k] == values0[k] && keys1[k] == keys0[k]);
                }
            }
            assert forall|name: Seq<char>| #[trigger]
                keys1.contains(name) <==> named_so_far(all, i as int, true, 0, name) by {
                if keys0.contains(name) {
                    let k = choose|k: int| 0 <= k < keys0.len() && keys0[k] == name;
                    assert(keys1[k] == name);
                }
                if keys1.contains(name) {
                    let k = choose|k: int| 0 <= k < keys1.len() && keys1[k] == name;
                    if k < keys0.len() {
                        assert(keys0[k] == name);
                    }
                }
            }
        }
        let mut j: usize = 0;
        while j < pack.dependencies.len()
            invariant
                i < packs.len(),
                j <= pack.dependencies.len(),
                all == shared_packs_view(packs@),
                pack == packs[i as int],
                p == all[i as int],
                p == pack@,
                deps == p.dependencies,
                m.wf(),
                index_in_progress(m.keys(), m.values(), all, i as int, true, j as int),
            decreases pack.dependencies.len() - j,
        {
            let dependency = &pack.dependencies[j];
            let ghost d = dependency@;
            let ghost keys0 = m.keys();
            let ghost values0 = m.values();
            proof {
                assert(deps[j as int] == d);
                if !keys0.contains(d) {
                    lemma_unnamed_has_no_dependents(all, i as int, true, j as int, d);
                }
            }
            let at = ensure_entry(&mut m, dependency);
            let ghost keys1 = m.keys();
            let ghost values1 = m.values();
            let entry = m.value_mut(at);
            let _ = entry.insert(pack.name.clone());
            proof {
                let keys2 = m.keys();
                let values2 = m.values();
                assert(keys2 == keys1);
                assert forall|k: int| 0 <= k < keys2.len() implies (#[trigger] values2[k]).wf()
                    && values2[k]@ =~= dependents_so_far(all, i as int, j + 1, keys2[k]) by {
                    lemma_dependency_step(all, i as int, j as int, keys2[k]);
                    if k != at {
                        assert(values2[k] == values1[k]);
                        assert(keys2[k] != d);
                    }
                    if k < keys0.len() {
                        assert(values1[k] == values0[k] && keys1[k] == keys0[k]);
                    }
                }
                assert forall|name: Seq<char>| #[trigger]
                    keys2.contains(name) <==> named_so_far(all, i as int, true, j + 1, name) by {
                    lemma_dependency_step(all, i as int, j as int, name);
                    if keys0.contains(name) {
                        let k = choose|k: int| 0 <= k < keys0.len() && keys0[k] == name;
                        assert(keys1[k] == name);
                    }
                    if keys1.contains(name) {
                        let k = choose|k: int| 0 <= k < keys1.len() && keys1[k] == name;
                        if k < keys0.len() {
                            assert(keys0[k] == name);
                        }
                    }
                }
            }
            j = j + 1;
        }
        proof {
            let keys = m.keys();
            let values = m.values();
            assert forall|k: int| 0 <= k < keys.len() implies (#[trigger] values[k]).wf()
                && values[k]@ =~= dependents_so_far(all, i + 1, 0, keys[k]) by {
                lemma_pack_done(all, i as int, keys[k]);
            }
            assert forall|name: Seq<char>| #[trigger]
                keys.contains(name) <==> named_so_far(all, i + 1, false, 0, name) by {
                lemma_pack_done(all, i as int, name);
            }
        }
        i = i + 1;
    }
    proof {
        m.lemma_view();
        assert(all.take(packs.len() as int) =~= all);
        assert forall|name: Seq<char>| #[trigger] m@.dom().contains(name) <==> is_named(
            all,
            name,
        ) by {
            assert(m.keys().contains(name) <==> named_so_far(
                all,
                packs.len() as int,
                false,
                0,
                name,
            ));
        }
        assert forall|name: Seq<char>| #[trigger] m@.dom().contains(name) implies m@[name].wf()
            && m@[name]@ == dependents_of(all, name) by {
            let k = choose|k: int| 0 <= k < m.keys().len() && m.keys()[k] == name;
            assert(m@[m.keys()[k]] == m.values()[k]);
            assert(m.values()[k]@ =~= dependents_so_far(all, packs.len() as int, 0, name));
            assert(dependents_so_far(all, packs.len() as int, 0, name) =~= dependents_of(
                all,
                name,
            ));
        }
    }
    m
}

} // verus!
