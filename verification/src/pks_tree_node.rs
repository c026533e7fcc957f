//! The tree of pack paths: one node for each pack and for each directory
//! above a pack, in the order in which the paths were first met.

use crate::path_key::{
    cuts_below, dotted, lemma_path_chain, node_at, node_names, pairs_view, segment_start,
    slash_count,
};
use crate::pks::PathViolations;
use crate::str_map::StrMap;
use crate::tally::names_view;
use crate::text::{same, to_chars};
use std::sync::Arc;
use vstd::prelude::*;
use vstd::std_specs::iter::IteratorSpec;
use vstd::string::StringExecFns;

verus! {

/// A node of the pack tree: a pack, or a directory above packs.
///
/// `children` is absent for a node below which no pack lies.
#[derive(Debug, PartialEq)]
pub struct PksTreeNode {
    pub path: String,
    pub node_name: String,
    pub has_package_definition: bool,
    pub children: Option<Vec<PksTreeNode>>,
    pub in_violation_count: usize,
    pub out_violation_count: usize,
}

/// What a node says, as plain text, with its children.
pub ghost struct NodeView {
    pub path: Seq<char>,
    pub node_name: Seq<char>,
    pub has_package_definition: bool,
    pub children: Option<Seq<NodeView>>,
    pub in_violation_count: usize,
    pub out_violation_count: usize,
}

/// The view of a node: what it says, and the views of its children.
pub open spec fn node_view(node: PksTreeNode) -> NodeView
    decreases node,
{
    NodeView {
        path: node.path@,
        node_name: node.node_name@,
        has_package_definition: node.has_package_definition,
        children: match node.children {
            None => None,
            Some(c) => Some(
                Seq::new(
                    c@.len(),
                    |i: int|
                        if 0 <= i < c@.len() {
                            node_view(c@[i])
                        } else {
                            no_node()
                        },
                ),
            ),
        },
        in_violation_count: node.in_violation_count,
        out_violation_count: node.out_violation_count,
    }
}

impl View for PksTreeNode {
    type V = NodeView;

    open spec fn view(&self) -> NodeView {
        node_view(*self)
    }
}

/// Stands where there is no node.
pub open spec fn no_node() -> NodeView {
    NodeView {
        path: Seq::empty(),
        node_name: Seq::empty(),
        has_package_definition: false,
        children: None,
        in_violation_count: 0,
        out_violation_count: 0,
    }
}

/// The views of a list of nodes.
pub open spec fn forest_view(nodes: Seq<PksTreeNode>) -> Seq<NodeView> {
    nodes.map_values(|n: PksTreeNode| n@)
}

/// The children of a node are viewed as a list of nodes is.
pub proof fn lemma_children_view(node: PksTreeNode)
    ensures
        node@.children == match node.children {
            None => None,
            Some(c) => Some(forest_view(c@)),
        },
{
    match node.children {
        None => {},
        Some(c) => {
            let viewed = node@.children->0;
            assert(viewed.len() == c@.len());
            assert forall|i: int| 0 <= i < viewed.len() implies viewed[i] == forest_view(c@)[i] by {
                assert(viewed[i] == node_view(c@[i]));
            }
            assert(viewed =~= forest_view(c@));
        },
    }
}

/// The index of the first node of `forest` from `from` on that has the given
/// path; the length of `forest` where there is none.
pub open spec fn first_with_path(forest: Seq<NodeView>, path: Seq<char>, from: int) -> int
    decreases forest.len() - from,
{
    if from < 0 || from >= forest.len() {
        forest.len() as int
    } else if forest[from].path == path {
        from
    } else {
        first_with_path(forest, path, from + 1)
    }
}

/// The numbers of violations that come into and go out of `path` without
/// being contained in it; 0 where the classification has no entry for it.
pub open spec fn in_out_counts(counts: Map<Seq<char>, Arc<PathViolations>>, path: Seq<char>) -> (
    usize,
    usize,
) {
    if counts.dom().contains(path) {
        (counts[path].uncontained_in_violations_count, counts[path].uncontained_out_violations_count)
    } else {
        (0, 0)
    }
}

/// The node that is created for `path`. It stands for a pack where the path
/// was met as the last of a chain, and else gets an empty list of children.
pub open spec fn fresh_node(
    path: Seq<char>,
    node_name: Seq<char>,
    leaf: bool,
    counts: Map<Seq<char>, Arc<PathViolations>>,
) -> NodeView {
    NodeView {
        path,
        node_name,
        has_package_definition: leaf,
        children: if leaf {
            None
        } else {
            Some(Seq::empty())
        },
        in_violation_count: in_out_counts(counts, path).0,
        out_violation_count: in_out_counts(counts, path).1,
    }
}

/// The forest after the chain of a pack, from `depth` on, was entered into
/// it.
///
/// The node of the path at `depth` is looked up among `forest` and appended
/// where it is missing. A node that is found keeps its place, its counts and
/// its children; it is marked as a pack where the chain ends with it. The rest
/// of the chain is entered among the children of the node.
pub open spec fn insert_chain(
    forest: Seq<NodeView>,
    chain: Seq<(Seq<char>, Seq<char>)>,
    depth: int,
    counts: Map<Seq<char>, Arc<PathViolations>>,
) -> Seq<NodeView>
    decreases chain.len() - depth,
{
    if depth < 0 || depth >= chain.len() {
        forest
    } else {
        let path = chain[depth].0;
        let leaf = depth + 1 == chain.len();
        let i = first_with_path(forest, path, 0);
        let present = if i < forest.len() {
            if leaf {
                forest.update(i, NodeView { has_package_definition: true, ..forest[i] })
            } else {
                forest
            }
        } else {
            forest.push(fresh_node(path, chain[depth].1, leaf, counts))
        };
        if leaf {
            present
        } else {
            let node = present[i];
            let below = match node.children {
                Some(nodes) => nodes,
                None => Seq::empty(),
            };
            present.update(
                i,
                NodeView { children: Some(insert_chain(below, chain, depth + 1, counts)), ..node },
            )
        }
    }
}

/// The forest of the first `k` pack names: the chains of the names, entered
/// one after the other into an empty forest.
pub open spec fn build_forest(
    pack_names: Seq<Seq<char>>,
    k: int,
    counts: Map<Seq<char>, Arc<PathViolations>>,
) -> Seq<NodeView>
    decreases k,
{
    if k <= 0 {
        Seq::empty()
    } else {
        insert_chain(
            build_forest(pack_names, k - 1, counts),
            node_names(pack_names[k - 1]),
            0,
            counts,
        )
    }
}

/// Builds the pack tree from the names of the packs.
pub struct PksTreeBuilder {
    pub pack_names: Vec<String>,
    pub violation_counts: Arc<StrMap<Arc<PathViolations>>>,
    pub children: Vec<PksTreeNode>,
}

impl PksTreeBuilder {
    /// The tree of the packs named `pack_names`, in the order of the names.
    /// Each node takes its counts from `violation_counts`.
    pub fn new(pack_names: Vec<String>, violation_counts: Arc<StrMap<Arc<PathViolations>>>) -> (r:
        Self)
        requires
            violation_counts.wf(),
        ensures
            r.pack_names == pack_names,
            r.violation_counts == violation_counts,
            forest_view(r.children@) == build_forest(
                names_view(pack_names@),
                pack_names.len() as int,
                violation_counts@,
            ),
    {
        let mut builder = Self { pack_names, violation_counts, children: Vec::new() };
        assert(forest_view(builder.children@) =~= Seq::empty());
        builder.build();
        builder
    }

    fn build(&mut self)
        requires
            old(self).violation_counts.wf(),
            forest_view(old(self).children@) == Seq::<NodeView>::empty(),
        ensures
            final(self).pack_names == old(self).pack_names,
            final(self).violation_counts == old(self).violation_counts,
            forest_view(final(self).children@) == build_forest(
                names_view(old(self).pack_names@),
                old(self).pack_names.len() as int,
                old(self).violation_counts@,
            ),
    {
        let ghost names = names_view(self.pack_names@);
        let ghost counts = self.violation_counts@;
        let mut k: usize = 0;
        while k < self.pack_names.len()
            invariant
                k <= self.pack_names.len(),
                self.pack_names == old(self).pack_names,
                self.violation_counts == old(self).violation_counts,
                self.violation_counts.wf(),
                names == names_view(self.pack_names@),
                counts == self.violation_counts@,
                forest_view(self.children@) == build_forest(names, k as int, counts),
            decreases self.pack_names.len() - k,
        {
            let chain = pack_name_to_node_names(self.pack_names[k].as_str());
            assert(names[k as int] == self.pack_names[k as int]@);
            let counts_map: &StrMap<Arc<PathViolations>> = &self.violation_counts;
            Self::find_or_create_node(&mut self.children, &chain, 0, counts_map);
            k = k + 1;
        }
    }

    /// The index of the first of `nodes` with the given path; the number of
    /// nodes where there is none.
    fn position_of(nodes: &Vec<PksTreeNode>, path: &str) -> (i: usize)
        ensures
            i == first_with_path(forest_view(nodes@), path@, 0),
            i <= nodes.len(),
    {
        let ghost forest = forest_view(nodes@);
        let mut i: usize = 0;
        while i < nodes.len()
            invariant
                i <= nodes.len(),
                forest == forest_view(nodes@),
                first_with_path(forest, path@, 0) == first_with_path(forest, path@, i as int),
            decreases nodes.len() - i,
        {
            assert(forest[i as int].path == nodes[i as int].path@);
            if same(nodes[i].path.as_str(), path) {
                return i;
            }
            i = i + 1;
        }
        i
    }

    /// Enters the chain of a pack, from `depth` on, among `nodes`: finds the
    /// node of the path at `depth` or creates it, marks it as a pack where the
    /// chain ends with it, and goes on below it with the rest of the chain.
    fn find_or_create_node(
        nodes: &mut Vec<PksTreeNode>,
        chain: &Vec<(String, String)>,
        depth: usize,
        counts: &StrMap<Arc<PathViolations>>,
    )
        requires
            depth < chain.len(),
            counts.wf(),
        ensures
            forest_view(final(nodes)@) == insert_chain(
                forest_view(old(nodes)@),
                pairs_view(chain@),
                depth as int,
                counts@,
            ),
        decreases chain.len() - depth,
    {
        let ghost before = forest_view(nodes@);
        let ghost links = pairs_view(chain@);
        let leaf = depth + 1 == chain.len();
        let path = &chain[depth].0;
        let node_name = &chain[depth].1;
        assert(links[depth as int] == (path@, node_name@));
        let i = Self::position_of(nodes, path.as_str());
        if i == nodes.len() {
            let vc = counts.get(path.as_str());
            let (in_violation_count, out_violation_count) = match vc {
                Some(vc) => (vc.uncontained_in_violations_count, vc.uncontained_out_violations_count),
                None => (0, 0),
            };
            let children = if leaf {
                None
            } else {
                Some(Vec::new())
            };
            let new_node = PksTreeNode {
                path: path.clone(),
                node_name: node_name.clone(),
                children,
                in_violation_count,
                out_violation_count,
                has_package_definition: leaf,
            };
            proof {
                lemma_children_view(new_node);
                if !leaf {
                    assert(forest_view(new_node.children->0@) =~= Seq::empty());
                }
                assert(new_node@ == fresh_node(path@, node_name@, leaf, counts@));
                assert(forest_view(nodes@.push(new_node)) =~= before.push(new_node@));
            }
            nodes.push(new_node);
        } else if leaf {
            let found = &mut nodes[i];
            found.has_package_definition = true;
            proof {
                assert(forest_view(nodes@) =~= before.update(
                    i as int,
                    NodeView { has_package_definition: true, ..before[i as int] },
                ));
            }
        }
        if !leaf {
            let ghost present = forest_view(nodes@);
            let node = &mut nodes[i];
            let ghost unchanged = *node;
            let mut below = match node.children.take() {
                Some(children) => children,
                None => Vec::new(),
            };
            proof {
                lemma_children_view(unchanged);
                assert(forest_view(below@) =~= match unchanged@.children {
                    Some(nodes) => nodes,
                    None => Seq::empty(),
                });
            }
            let ghost below_before = forest_view(below@);
            Self::find_or_create_node(&mut below, chain, depth + 1, counts);
            let ghost below_after = forest_view(below@);
            node.children = Some(below);
            proof {
                lemma_children_view(nodes[i as int]);
                assert(nodes[i as int]@ == NodeView {
                    children: Some(below_after),
                    ..present[i as int]
                });
                assert(forest_view(nodes@) =~= present.update(
                    i as int,
                    NodeView { children: Some(below_after), ..present[i as int] },
                ));
            }
        }
    }
}

/// Prefixes `path` with `"./"` unless it already starts with a dot.
pub fn prepend_dot_to_path(path: &str) -> (r: String)
    ensures
        r@ == dotted(path@),
{
    broadcast use vstd::string::group_string_axioms;

    let mut it = path.chars();
    let starts_with_dot = match it.next() {
        Some(c) => c == '.',
        None => false,
    };
    if starts_with_dot {
        path.to_owned()
    } else {
        proof {
            reveal_strlit("./");
            assert("./"@ =~= seq!['.', '/']);
        }
        "./".to_owned().concat(path)
    }
}

/// Decomposes a pack name into the chain of its ancestor paths, from the root
/// to the dotted name itself, each with the name of its last segment.
///
/// The chain has one entry more than the dotted name has slashes, and its last
/// entry holds the dotted name.
///
/// Every text is taken as a name and none is refused: a name is cut at each
/// of its slashes, also where that leaves an empty segment, and a name that
/// starts with a dot is taken to be dotted already.
pub fn pack_name_to_node_names(pack_name: &str) -> (r: Vec<(String, String)>)
    ensures
        pairs_view(r@) == node_names(pack_name@),
        r.len() == slash_count(dotted(pack_name@)) + 1,
        r@.last().0@ == dotted(pack_name@),
{
    let path = prepend_dot_to_path(pack_name);
    let chars = to_chars(path.as_str());
    let n = chars.len();
    let ghost p = path@;
    let ghost f = |c: int| node_at(p, c);
    let mut node_names: Vec<(String, String)> = Vec::new();
    let mut start: usize = 0;
    let mut e: usize = 0;
    while e < n
        invariant
            e <= n,
            n == p.len(),
            p == path@,
            chars@ == p,
            f == |c: int| node_at(p, c),
            start <= e,
            start == segment_start(p, e as int),
            pairs_view(node_names@) == cuts_below(p, e as int).map_values(f),
        decreases n - e,
    {
        if chars[e] == '/' {
            let ancestor = path.as_str().substring_char(0, e).to_owned();
            let segment = path.as_str().substring_char(start, e).to_owned();
            proof {
                assert(pairs_view(node_names@.push((ancestor, segment))) =~= pairs_view(
                    node_names@,
                ).push((ancestor@, segment@)));
                assert(cuts_below(p, e + 1).map_values(f) =~= cuts_below(p, e as int).map_values(
                    f,
                ).push(f(e as int)));
            }
            node_names.push((ancestor, segment));
            start = e + 1;
        }
        e = e + 1;
    }
    let segment = path.as_str().substring_char(start, n).to_owned();
    proof {
        assert(p.take(n as int) =~= p);
        assert(pairs_view(node_names@.push((path, segment))) =~= pairs_view(node_names@).push(
            (path@, segment@),
        ));
        assert(cuts_below(p, n + 1).map_values(f) =~= cuts_below(p, n as int).map_values(f).push(
            f(n as int),
        ));
        lemma_path_chain(p);
    }
    node_names.push((path, segment));
    node_names
}

} // verus!
