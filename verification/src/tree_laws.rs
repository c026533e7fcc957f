//! What holds of the pack tree, however many packs were entered into it.
//!
//! Every pack is found by walking down the chain of its paths, and is marked
//! as a pack; below one node no path stands twice; a node is marked as a pack
//! only if a pack has its path; the path of a node is the path of the node
//! above it, a `'/'`, and its own name.

use crate::path_key::{
    cuts, cuts_below, dotted, is_cut, lemma_cuts_below, node_at, node_names, path_chain,
    segment_start,
};
use crate::pks::PathViolations;
use crate::pks_tree_node::{
    build_forest, first_with_path, fresh_node, insert_chain, NodeView,
};
use std::sync::Arc;
use vstd::prelude::*;

verus! {

/// The node that is reached from `forest` by walking down the paths of
/// `chain` from `depth` on; nothing where a path of the chain is missing.
pub open spec fn lookup(
    forest: Seq<NodeView>,
    chain: Seq<(Seq<char>, Seq<char>)>,
    depth: int,
) -> Option<NodeView>
    decreases chain.len() - depth,
{
    if depth < 0 || depth >= chain.len() {
        None
    } else {
        let i = first_with_path(forest, chain[depth].0, 0);
        if i >= forest.len() {
            None
        } else if depth + 1 == chain.len() {
            Some(forest[i])
        } else {
            match forest[i].children {
                Some(below) => lookup(below, chain, depth + 1),
                None => None,
            }
        }
    }
}

/// No two nodes of `forest` have the same path.
pub open spec fn siblings_distinct(forest: Seq<NodeView>) -> bool {
    forall|i: int, j: int|
        0 <= i < forest.len() && 0 <= j < forest.len() && i != j ==> forest[i].path
            != forest[j].path
}

/// Below one node no path stands twice, in the whole forest.
pub open spec fn tidy(forest: Seq<NodeView>) -> bool
    decreases forest,
{
    &&& siblings_distinct(forest)
    &&& forall|i: int|
        0 <= i < forest.len() ==> ((#[trigger] forest[i]).children matches Some(below) ==> tidy(
            below,
        ))
}

/// Every node of the forest that is marked as a pack has a path of `packs`.
pub open spec fn marked_within(forest: Seq<NodeView>, packs: Set<Seq<char>>) -> bool
    decreases forest,
{
    forall|i: int|
        0 <= i < forest.len() ==> {
            &&& (#[trigger] forest[i]).has_package_definition ==> packs.contains(forest[i].path)
            &&& forest[i].children matches Some(below) ==> marked_within(below, packs)
        }
}

/// The path of every node below the node with the path `above` is `above`,
/// a `'/'` and the name of the node; and so on down the forest.
pub open spec fn linked(forest: Seq<NodeView>, above: Option<Seq<char>>) -> bool
    decreases forest,
{
    forall|i: int|
        0 <= i < forest.len() ==> {
            &&& above matches Some(path) ==> (#[trigger] forest[i]).path == path + seq!['/']
                + forest[i].node_name
            &&& forest[i].children matches Some(below) ==> linked(below, Some(forest[i].path))
        }
}

/// In a chain that is linked, each path is the path before it, a `'/'` and
/// the name that stands beside it.
pub open spec fn linked_chain(chain: Seq<(Seq<char>, Seq<char>)>) -> bool {
    forall|d: int|
        0 <= d && d + 1 < chain.len() ==> (#[trigger] chain[d + 1]).0 == chain[d].0 + seq!['/']
            + chain[d + 1].1
}

/// The search for a path finds the first node with the path, or ends behind
/// the last node where no node has it.
pub proof fn lemma_first_with_path(forest: Seq<NodeView>, path: Seq<char>, from: int)
    requires
        0 <= from <= forest.len(),
    ensures
        from <= first_with_path(forest, path, from) <= forest.len(),
        first_with_path(forest, path, from) < forest.len() ==> forest[first_with_path(
            forest,
            path,
            from,
        )].path == path,
        forall|k: int|
            from <= k < first_with_path(forest, path, from) ==> (#[trigger] forest[k]).path
                != path,
    decreases forest.len() - from,
{
    if from < forest.len() && forest[from].path != path {
        lemma_first_with_path(forest, path, from + 1);
    }
}

/// The search for a path is settled by the paths of the nodes before the
/// place where it ends.
pub proof fn lemma_first_with_path_is(forest: Seq<NodeView>, path: Seq<char>, from: int, at: int)
    requires
        0 <= from <= at <= forest.len(),
        forall|k: int| from <= k < at ==> (#[trigger] forest[k]).path != path,
        at < forest.len() ==> forest[at].path == path,
    ensures
        first_with_path(forest, path, from) == at,
    decreases at - from,
{
    if from < at {
        lemma_first_with_path_is(forest, path, from + 1, at);
    }
}

/// The node `after` is the node `before` but for its children, and is marked
/// as a pack if `before` is.
pub open spec fn kept(before: NodeView, after: NodeView) -> bool {
    &&& after.path == before.path
    &&& after.node_name == before.node_name
    &&& after.in_violation_count == before.in_violation_count
    &&& after.out_violation_count == before.out_violation_count
    &&& before.has_package_definition ==> after.has_package_definition
}

/// Entering a chain keeps the nodes that are there in their places, with
/// their paths, names and counts, and adds at most one node at the end.
pub proof fn lemma_insert_keeps_nodes(
    forest: Seq<NodeView>,
    chain: Seq<(Seq<char>, Seq<char>)>,
    depth: int,
    counts: Map<Seq<char>, Arc<PathViolations>>,
)
    requires
        0 <= depth < chain.len(),
    ensures
        forest.len() <= insert_chain(forest, chain, depth, counts).len() <= forest.len() + 1,
        first_with_path(forest, chain[depth].0, 0) < forest.len() ==> insert_chain(
            forest,
            chain,
            depth,
            counts,
        ).len() == forest.len(),
        insert_chain(forest, chain, depth, counts).len() == forest.len() + 1 ==> insert_chain(
            forest,
            chain,
            depth,
            counts,
        ).last().path == chain[depth].0,
        forall|k: int|
            0 <= k < forest.len() ==> kept(
                #[trigger] forest[k],
                insert_chain(forest, chain, depth, counts)[k],
            ),
        forall|k: int|
            0 <= k < forest.len() && k != first_with_path(forest, chain[depth].0, 0)
                ==> insert_chain(forest, chain, depth, counts)[k] == #[trigger] forest[k],
{
    lemma_first_with_path(forest, chain[depth].0, 0);
}

/// A pack that was entered is found by walking down its chain, and the node
/// that is found has the last path of the chain and is marked as a pack.
pub proof fn lemma_entered_is_found(
    forest: Seq<NodeView>,
    chain: Seq<(Seq<char>, Seq<char>)>,
    depth: int,
    counts: Map<Seq<char>, Arc<PathViolations>>,
)
    requires
        0 <= depth < chain.len(),
    ensures
        lookup(insert_chain(forest, chain, depth, counts), chain, depth) matches Some(node)
            && node.path == chain.last().0 && node.has_package_definition,
    decreases chain.len() - depth,
{
    let path = chain[depth].0;
    let leaf = depth + 1 == chain.len();
    let i = first_with_path(forest, path, 0);
    lemma_first_with_path(forest, path, 0);
    let present = if i < forest.len() {
        if leaf {
            forest.update(i, NodeView { has_package_definition: true, ..forest[i] })
        } else {
            forest
        }
    } else {
        forest.push(fresh_node(path, chain[depth].1, leaf, counts))
    };
    let after = insert_chain(forest, chain, depth, counts);
    assert forall|k: int| 0 <= k < i implies (#[trigger] after[k]).path != path by {
        assert(forest[k].path != path);
    }
    assert(after[i].path == path);
    lemma_first_with_path_is(after, path, 0, i);
    if !leaf {
        let node = present[i];
        let below = match node.children {
            Some(nodes) => nodes,
            None => Seq::empty(),
        };
        lemma_entered_is_found(below, chain, depth + 1, counts);
    }
}

/// A pack that is found is still found after another chain was entered, in
/// a node with the same path, name and counts; and it stays marked as a pack
/// if it was.
pub proof fn lemma_found_stays_found(
    forest: Seq<NodeView>,
    chain: Seq<(Seq<char>, Seq<char>)>,
    other: Seq<(Seq<char>, Seq<char>)>,
    depth: int,
    counts: Map<Seq<char>, Arc<PathViolations>>,
)
    requires
        0 <= depth < other.len(),
        lookup(forest, chain, depth) is Some,
    ensures
        lookup(insert_chain(forest, other, depth, counts), chain, depth) matches Some(node)
            && kept(lookup(forest, chain, depth)->0, node),
    decreases chain.len() - depth,
{
    let path = chain[depth].0;
    let i = first_with_path(forest, path, 0);
    lemma_first_with_path(forest, path, 0);
    let after = insert_chain(forest, other, depth, counts);
    lemma_insert_keeps_nodes(forest, other, depth, counts);
    assert forall|k: int| 0 <= k < i implies (#[trigger] after[k]).path != path by {
        assert(forest[k].path != path);
    }
    assert(after[i].path == path);
    lemma_first_with_path_is(after, path, 0, i);
    let j = first_with_path(forest, other[depth].0, 0);
    lemma_first_with_path(forest, other[depth].0, 0);
    if depth + 1 < chain.len() {
        let below = forest[i].children->0;
        if i == j && depth + 1 < other.len() {
            lemma_found_stays_found(below, chain, other, depth + 1, counts);
        }
    }
}

/// Every pack of the first `k` names is found in the forest of these names
/// by walking down its chain, in a node that has the dotted name of the pack
/// as its path and is marked as a pack.
pub proof fn lemma_every_pack_is_found(
    pack_names: Seq<Seq<char>>,
    k: int,
    counts: Map<Seq<char>, Arc<PathViolations>>,
    j: int,
)
    requires
        0 <= j < k <= pack_names.len(),
    ensures
        lookup(build_forest(pack_names, k, counts), node_names(pack_names[j]), 0) matches Some(
            node,
        ) && node.path == dotted(pack_names[j]) && node.has_package_definition,
    decreases k,
{
    let before = build_forest(pack_names, k - 1, counts);
    let entered = node_names(pack_names[k - 1]);
    crate::path_key::lemma_path_chain(dotted(pack_names[k - 1]));
    crate::path_key::lemma_path_chain(dotted(pack_names[j]));
    if j == k - 1 {
        lemma_entered_is_found(before, entered, 0, counts);
    } else {
        lemma_every_pack_is_found(pack_names, k - 1, counts, j);
        lemma_found_stays_found(before, node_names(pack_names[j]), entered, 0, counts);
    }
}

/// Entering a chain leaves the forest tidy.
pub proof fn lemma_insert_keeps_tidy(
    forest: Seq<NodeView>,
    chain: Seq<(Seq<char>, Seq<char>)>,
    depth: int,
    counts: Map<Seq<char>, Arc<PathViolations>>,
)
    requires
        0 <= depth < chain.len(),
        tidy(forest),
    ensures
        tidy(insert_chain(forest, chain, depth, counts)),
    decreases chain.len() - depth,
{
    let path = chain[depth].0;
    let leaf = depth + 1 == chain.len();
    let i = first_with_path(forest, path, 0);
    lemma_first_with_path(forest, path, 0);
    lemma_insert_keeps_nodes(forest, chain, depth, counts);
    let after = insert_chain(forest, chain, depth, counts);
    let present = if i < forest.len() {
        if leaf {
            forest.update(i, NodeView { has_package_definition: true, ..forest[i] })
        } else {
            forest
        }
    } else {
        forest.push(fresh_node(path, chain[depth].1, leaf, counts))
    };
    if !leaf {
        let node = present[i];
        let below = match node.children {
            Some(nodes) => nodes,
            None => Seq::empty(),
        };
        if i < forest.len() {
            assert(forest[i].children matches Some(kids) ==> tidy(kids));
        }
        assert(tidy(below));
        lemma_insert_keeps_tidy(below, chain, depth + 1, counts);
    }
    assert forall|a: int, b: int|
        0 <= a < after.len() && 0 <= b < after.len() && a != b implies after[a].path
        != after[b].path by {
        if a < forest.len() && b < forest.len() {
            assert(forest[a].path != forest[b].path);
        } else if a < forest.len() {
            assert(forest[a].path != path);
        } else {
            assert(forest[b].path != path);
        }
    }
    assert forall|k: int| 0 <= k < after.len() implies ((#[trigger] after[k]).children matches Some(
        kids,
    ) ==> tidy(kids)) by {
        if k != i {
            assert(after[k] == forest[k]);
            assert(forest[k].children matches Some(kids) ==> tidy(kids));
        } else if leaf && i < forest.len() {
            assert(forest[i].children matches Some(kids) ==> tidy(kids));
        }
    }
}

/// In the forest of any names, no path stands twice below one node.
pub proof fn lemma_forest_is_tidy(
    pack_names: Seq<Seq<char>>,
    k: int,
    counts: Map<Seq<char>, Arc<PathViolations>>,
)
    requires
        0 <= k <= pack_names.len(),
    ensures
        tidy(build_forest(pack_names, k, counts)),
    decreases k,
{
    if k > 0 {
        lemma_forest_is_tidy(pack_names, k - 1, counts);
        crate::path_key::lemma_path_chain(dotted(pack_names[k - 1]));
        lemma_insert_keeps_tidy(
            build_forest(pack_names, k - 1, counts),
            node_names(pack_names[k - 1]),
            0,
            counts,
        );
    }
}

/// The dotted names of `pack_names`.
pub open spec fn pack_paths(pack_names: Seq<Seq<char>>) -> Set<Seq<char>> {
    Set::new(
        |path: Seq<char>| exists|j: int| 0 <= j < pack_names.len() && dotted(pack_names[j]) == path,
    )
}

/// Entering the chain of a pack marks no node as a pack but one with the path
/// of that pack.
pub proof fn lemma_insert_keeps_marked(
    forest: Seq<NodeView>,
    chain: Seq<(Seq<char>, Seq<char>)>,
    depth: int,
    counts: Map<Seq<char>, Arc<PathViolations>>,
    packs: Set<Seq<char>>,
)
    requires
        0 <= depth < chain.len(),
        marked_within(forest, packs),
        packs.contains(chain.last().0),
    ensures
        marked_within(insert_chain(forest, chain, depth, counts), packs),
    decreases chain.len() - depth,
{
    let path = chain[depth].0;
    let leaf = depth + 1 == chain.len();
    let i = first_with_path(forest, path, 0);
    lemma_first_with_path(forest, path, 0);
    lemma_insert_keeps_nodes(forest, chain, depth, counts);
    let after = insert_chain(forest, chain, depth, counts);
    let present = if i < forest.len() {
        if leaf {
            forest.update(i, NodeView { has_package_definition: true, ..forest[i] })
        } else {
            forest
        }
    } else {
        forest.push(fresh_node(path, chain[depth].1, leaf, counts))
    };
    if !leaf {
        let node = present[i];
        let below = match node.children {
            Some(nodes) => nodes,
            None => Seq::empty(),
        };
        if i < forest.len() {
            assert(forest[i].children matches Some(kids) ==> marked_within(kids, packs));
        }
        assert(marked_within(below, packs));
        lemma_insert_keeps_marked(below, chain, depth + 1, counts, packs);
    }
    assert forall|k: int| 0 <= k < after.len() implies {
        &&& (#[trigger] after[k]).has_package_definition ==> packs.contains(after[k].path)
        &&& after[k].children matches Some(kids) ==> marked_within(kids, packs)
    } by {
        if k != i {
            assert(after[k] == forest[k]);
            assert(forest[k].has_package_definition ==> packs.contains(forest[k].path));
            assert(forest[k].children matches Some(kids) ==> marked_within(kids, packs));
        } else if i < forest.len() {
            assert(forest[i].has_package_definition ==> packs.contains(forest[i].path));
            assert(forest[i].children matches Some(kids) ==> marked_within(kids, packs));
        }
    }
}

/// In the forest of any names, a node is marked as a pack only if its path is
/// the dotted name of one of the packs.
pub proof fn lemma_forest_marks_packs_only(
    pack_names: Seq<Seq<char>>,
    k: int,
    counts: Map<Seq<char>, Arc<PathViolations>>,
)
    requires
        0 <= k <= pack_names.len(),
    ensures
        marked_within(build_forest(pack_names, k, counts), pack_paths(pack_names)),
    decreases k,
{
    if k > 0 {
        lemma_forest_marks_packs_only(pack_names, k - 1, counts);
        crate::path_key::lemma_path_chain(dotted(pack_names[k - 1]));
        assert(pack_paths(pack_names).contains(dotted(pack_names[k - 1])));
        lemma_insert_keeps_marked(
            build_forest(pack_names, k - 1, counts),
            node_names(pack_names[k - 1]),
            0,
            counts,
            pack_paths(pack_names),
        );
    }
}

/// Every list of children that is there holds a node, in the whole forest.
pub open spec fn no_empty_children(forest: Seq<NodeView>) -> bool
    decreases forest,
{
    forall|i: int|
        0 <= i < forest.len() ==> ((#[trigger] forest[i]).children matches Some(below)
            ==> below.len() > 0 && no_empty_children(below))
}

/// Entering a chain leaves no list of children empty.
pub proof fn lemma_insert_keeps_children(
    forest: Seq<NodeView>,
    chain: Seq<(Seq<char>, Seq<char>)>,
    depth: int,
    counts: Map<Seq<char>, Arc<PathViolations>>,
)
    requires
        0 <= depth < chain.len(),
        no_empty_children(forest),
    ensures
        no_empty_children(insert_chain(forest, chain, depth, counts)),
        insert_chain(forest, chain, depth, counts).len() > 0,
    decreases chain.len() - depth,
{
    let path = chain[depth].0;
    let leaf = depth + 1 == chain.len();
    let i = first_with_path(forest, path, 0);
    lemma_first_with_path(forest, path, 0);
    lemma_insert_keeps_nodes(forest, chain, depth, counts);
    let after = insert_chain(forest, chain, depth, counts);
    let present = if i < forest.len() {
        if leaf {
            forest.update(i, NodeView { has_package_definition: true, ..forest[i] })
        } else {
            forest
        }
    } else {
        forest.push(fresh_node(path, chain[depth].1, leaf, counts))
    };
    if !leaf {
        let node = present[i];
        let below = match node.children {
            Some(nodes) => nodes,
            None => Seq::empty(),
        };
        if i < forest.len() {
            assert(forest[i].children matches Some(kids) ==> no_empty_children(kids));
        }
        assert(no_empty_children(below));
        lemma_insert_keeps_children(below, chain, depth + 1, counts);
    }
    assert forall|k: int| 0 <= k < after.len() implies ((#[trigger] after[k]).children matches Some(
        kids,
    ) ==> kids.len() > 0 && no_empty_children(kids)) by {
        if k != i {
            assert(after[k] == forest[k]);
            assert(forest[k].children matches Some(kids) ==> kids.len() > 0 && no_empty_children(
                kids,
            ));
        } else if leaf && i < forest.len() {
            assert(forest[i].children matches Some(kids) ==> kids.len() > 0 && no_empty_children(
                kids,
            ));
        }
    }
}

/// In the forest of any names, a node has a list of children exactly if a
/// node stands below it.
pub proof fn lemma_forest_has_no_empty_children(
    pack_names: Seq<Seq<char>>,
    k: int,
    counts: Map<Seq<char>, Arc<PathViolations>>,
)
    requires
        0 <= k <= pack_names.len(),
    ensures
        no_empty_children(build_forest(pack_names, k, counts)),
    decreases k,
{
    if k > 0 {
        lemma_forest_has_no_empty_children(pack_names, k - 1, counts);
        crate::path_key::lemma_path_chain(dotted(pack_names[k - 1]));
        lemma_insert_keeps_children(
            build_forest(pack_names, k - 1, counts),
            node_names(pack_names[k - 1]),
            0,
            counts,
        );
    }
}

/// Between a `'/'` and the next cut behind it, a segment starts right behind
/// the `'/'`.
pub proof fn lemma_segment_start(path: Seq<char>, from: int, e: int)
    requires
        0 <= from < e <= path.len(),
        path[from] == '/',
        forall|x: int| from < x < e ==> path[x] != '/',
    ensures
        segment_start(path, e) == from + 1,
    decreases e - from,
{
    if e - 1 > from {
        lemma_segment_start(path, from, e - 1);
    }
}

/// The ancestor chain of a path is linked.
pub proof fn lemma_path_chain_linked(path: Seq<char>)
    ensures
        linked_chain(path_chain(path)),
{
    let chain = path_chain(path);
    let all = cuts(path);
    lemma_cuts_below(path, path.len() as int + 1);
    assert forall|d: int| 0 <= d && d + 1 < chain.len() implies (#[trigger] chain[d + 1]).0
        == chain[d].0 + seq!['/'] + chain[d + 1].1 by {
        let a = all[d];
        let b = all[d + 1];
        assert(chain[d] == node_at(path, a));
        assert(chain[d + 1] == node_at(path, b));
        assert(is_cut(path, a) && is_cut(path, b) && a < b);
        assert forall|x: int| a < x < b implies path[x] != '/' by {
            if path[x] == '/' {
                assert(is_cut(path, x));
                assert(all.contains(x));
                let m = choose|m: int| 0 <= m < all.len() && all[m] == x;
                if m <= d {
                    if m < d {
                        assert(all[m] < all[d]);
                    }
                } else {
                    if d + 1 < m {
                        assert(all[d + 1] < all[m]);
                    }
                }
            }
        }
        lemma_segment_start(path, a, b);
        assert(path.take(b) =~= path.take(a) + seq!['/'] + path.subrange(a + 1, b));
    }
}

/// Entering a linked chain leaves the forest linked.
pub proof fn lemma_insert_keeps_linked(
    forest: Seq<NodeView>,
    chain: Seq<(Seq<char>, Seq<char>)>,
    depth: int,
    counts: Map<Seq<char>, Arc<PathViolations>>,
    above: Option<Seq<char>>,
)
    requires
        0 <= depth < chain.len(),
        linked_chain(chain),
        linked(forest, above),
        above == if depth == 0 {
            None
        } else {
            Some(chain[depth - 1].0)
        },
    ensures
        linked(insert_chain(forest, chain, depth, counts), above),
    decreases chain.len() - depth,
{
    let path = chain[depth].0;
    let leaf = depth + 1 == chain.len();
    let i = first_with_path(forest, path, 0);
    lemma_first_with_path(forest, path, 0);
    lemma_insert_keeps_nodes(forest, chain, depth, counts);
    let after = insert_chain(forest, chain, depth, counts);
    let present = if i < forest.len() {
        if leaf {
            forest.update(i, NodeView { has_package_definition: true, ..forest[i] })
        } else {
            forest
        }
    } else {
        forest.push(fresh_node(path, chain[depth].1, leaf, counts))
    };
    if depth > 0 {
        assert(chain[depth - 1 + 1].0 == chain[depth - 1].0 + seq!['/'] + chain[depth - 1 + 1].1);
    }
    if !leaf {
        let node = present[i];
        let below = match node.children {
            Some(nodes) => nodes,
            None => Seq::empty(),
        };
        if i < forest.len() {
            assert(forest[i].children matches Some(kids) ==> linked(kids, Some(forest[i].path)));
        }
        assert(linked(below, Some(path)));
        lemma_insert_keeps_linked(below, chain, depth + 1, counts, Some(path));
    }
    assert forall|k: int| 0 <= k < after.len() implies {
        &&& above matches Some(p) ==> (#[trigger] after[k]).path == p + seq!['/']
            + after[k].node_name
        &&& after[k].children matches Some(kids) ==> linked(kids, Some(after[k].path))
    } by {
        if k != i {
            assert(after[k] == forest[k]);
            assert(above matches Some(p) ==> forest[k].path == p + seq!['/'] + forest[k].node_name);
            assert(forest[k].children matches Some(kids) ==> linked(kids, Some(forest[k].path)));
        } else if i < forest.len() {
            assert(above matches Some(p) ==> forest[i].path == p + seq!['/'] + forest[i].node_name);
            assert(forest[i].children matches Some(kids) ==> linked(kids, Some(forest[i].path)));
        }
    }
}

/// In the forest of any names, the path of every node below another is the
/// path of that node, a `'/'` and its own name.
pub proof fn lemma_forest_is_linked(
    pack_names: Seq<Seq<char>>,
    k: int,
    counts: Map<Seq<char>, Arc<PathViolations>>,
)
    requires
        0 <= k <= pack_names.len(),
    ensures
        linked(build_forest(pack_names, k, counts), None),
    decreases k,
{
    if k > 0 {
        lemma_forest_is_linked(pack_names, k - 1, counts);
        crate::path_key::lemma_path_chain(dotted(pack_names[k - 1]));
        lemma_path_chain_linked(dotted(pack_names[k - 1]));
        lemma_insert_keeps_linked(
            build_forest(pack_names, k - 1, counts),
            node_names(pack_names[k - 1]),
            0,
            counts,
            None,
        );
    }
}

/// The name is the root pack `"."`, or does not start with a dot, or names
/// a path below `"."`: its chain starts at `"."`.
pub open spec fn rooted(name: Seq<char>) -> bool {
    ||| name.len() == 0
    ||| name[0] != '.'
    ||| name.len() == 1
    ||| name[1] == '/'
}

/// The cuts below a position are the first of the cuts below a later one.
pub proof fn lemma_cuts_below_prefix(path: Seq<char>, a: int, b: int)
    requires
        0 <= a <= b,
    ensures
        cuts_below(path, a).len() <= cuts_below(path, b).len(),
        cuts_below(path, b).take(cuts_below(path, a).len() as int) == cuts_below(path, a),
    decreases b - a,
{
    if a < b {
        lemma_cuts_below_prefix(path, a, b - 1);
        let shorter = cuts_below(path, b - 1);
        let n = cuts_below(path, a).len() as int;
        assert(cuts_below(path, b).take(n) =~= shorter.take(n));
    } else {
        assert(cuts_below(path, a).take(cuts_below(path, a).len() as int) =~= cuts_below(path, a));
    }
}

/// The chain of a rooted name starts at `"."`.
pub proof fn lemma_rooted_chain(name: Seq<char>)
    requires
        rooted(name),
    ensures
        node_names(name).len() > 0,
        node_names(name)[0].0 == seq!['.'],
{
    let path = dotted(name);
    assert(path.len() >= 1 && path[0] == '.');
    assert(path.len() == 1 || path[1] == '/');
    assert(is_cut(path, 1));
    assert(!is_cut(path, 0));
    assert(cuts_below(path, 2) =~= seq![1int]) by {
        assert(cuts_below(path, 0) =~= Seq::<int>::empty());
        assert(cuts_below(path, 1) == cuts_below(path, 0));
        assert(cuts_below(path, 2) == cuts_below(path, 1).push(1));
    }
    lemma_cuts_below_prefix(path, 2, path.len() as int + 1);
    assert(cuts(path)[0] == cuts(path).take(1)[0]);
    assert(path.take(1) =~= seq!['.']);
}

/// The forest of rooted names has one tree, and its root has the path `"."`.
pub proof fn lemma_rooted_forest_has_one_root(
    pack_names: Seq<Seq<char>>,
    k: int,
    counts: Map<Seq<char>, Arc<PathViolations>>,
)
    requires
        0 <= k <= pack_names.len(),
        forall|j: int| 0 <= j < pack_names.len() ==> rooted(#[trigger] pack_names[j]),
    ensures
        k == 0 ==> build_forest(pack_names, k, counts).len() == 0,
        k > 0 ==> build_forest(pack_names, k, counts).len() == 1 && build_forest(
            pack_names,
            k,
            counts,
        )[0].path == seq!['.'],
    decreases k,
{
    if k > 0 {
        lemma_rooted_forest_has_one_root(pack_names, k - 1, counts);
        let before = build_forest(pack_names, k - 1, counts);
        let chain = node_names(pack_names[k - 1]);
        lemma_rooted_chain(pack_names[k - 1]);
        lemma_first_with_path(before, chain[0].0, 0);
        lemma_insert_keeps_nodes(before, chain, 0, counts);
        if k - 1 > 0 {
            lemma_first_with_path_is(before, chain[0].0, 0, 0);
        }
    }
}

} // verus!
