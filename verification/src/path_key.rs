//! Path keys: how a pack name is normalised to a dotted path and decomposed
//! into the chain of its ancestor paths, from `"."` down to the name itself.
//!
//! A *cut* of a path is a position at which an ancestor path ends: the
//! position of a `'/'`, or the end of the path.

use vstd::prelude::*;

verus! {

/// The path of a pack name: the name itself where it already starts with a
/// dot, and otherwise the name behind `"./"`.
pub open spec fn dotted(name: Seq<char>) -> Seq<char> {
    if name.len() > 0 && name[0] == '.' {
        name
    } else {
        seq!['.', '/'] + name
    }
}

/// Position `e` ends an ancestor path of `path`.
pub open spec fn is_cut(path: Seq<char>, e: int) -> bool {
    0 <= e <= path.len() && (e == path.len() || path[e] == '/')
}

/// The cuts of `path` that lie below `upto`, in ascending order.
pub open spec fn cuts_below(path: Seq<char>, upto: int) -> Seq<int>
    decreases upto,
{
    if upto <= 0 {
        Seq::empty()
    } else if is_cut(path, upto - 1) {
        cuts_below(path, upto - 1).push(upto - 1)
    } else {
        cuts_below(path, upto - 1)
    }
}

/// All cuts of `path`, in ascending order; the last one is its length.
pub open spec fn cuts(path: Seq<char>) -> Seq<int> {
    cuts_below(path, path.len() as int + 1)
}

/// Where the path segment that ends at `e` begins: behind the last `'/'`
/// before `e`, or at the start of the path.
pub open spec fn segment_start(path: Seq<char>, e: int) -> int
    decreases e,
{
    if e <= 0 {
        0
    } else if path[e - 1] == '/' {
        e
    } else {
        segment_start(path, e - 1)
    }
}

/// The ancestor of `path` that ends at the cut `e`, with the name of its last
/// segment.
pub open spec fn node_at(path: Seq<char>, e: int) -> (Seq<char>, Seq<char>) {
    (path.take(e), path.subrange(segment_start(path, e), e))
}

/// The ancestor chain of a path: one `(ancestor path, segment name)` pair for
/// each cut, from the root to the path itself.
pub open spec fn path_chain(path: Seq<char>) -> Seq<(Seq<char>, Seq<char>)> {
    cuts(path).map_values(|e: int| node_at(path, e))
}

/// The ancestor chain of a pack name.
pub open spec fn node_names(pack_name: Seq<char>) -> Seq<(Seq<char>, Seq<char>)> {
    path_chain(dotted(pack_name))
}

/// The number of `'/'` characters among the first `upto` characters of `path`.
pub open spec fn slashes_below(path: Seq<char>, upto: int) -> nat
    decreases upto,
{
    if upto <= 0 {
        0
    } else if upto <= path.len() && path[upto - 1] == '/' {
        slashes_below(path, upto - 1) + 1
    } else {
        slashes_below(path, upto - 1)
    }
}

/// The number of `'/'` characters in `path`.
pub open spec fn slash_count(path: Seq<char>) -> nat {
    slashes_below(path, path.len() as int)
}

/// `part` is `path` or one of its ancestors: `path` continues behind `part`
/// with a `'/'`, or ends there. A mere common prefix is not enough.
pub open spec fn contained(part: Seq<char>, path: Seq<char>) -> bool {
    part == path || (part + seq!['/']).is_prefix_of(path)
}

/// The views of a vector of string pairs.
pub open spec fn pairs_view(pairs: Seq<(String, String)>) -> Seq<(Seq<char>, Seq<char>)> {
    pairs.map_values(|p: (String, String)| (p.0@, p.1@))
}

/// The paths of a chain, without the segment names.
pub open spec fn chain_paths(chain: Seq<(Seq<char>, Seq<char>)>) -> Seq<Seq<char>> {
    chain.map_values(|p: (Seq<char>, Seq<char>)| p.0)
}

/// Below `upto` there is one cut for each `'/'`.
pub proof fn lemma_cuts_below_len(path: Seq<char>, upto: int)
    requires
        0 <= upto <= path.len(),
    ensures
        cuts_below(path, upto).len() == slashes_below(path, upto),
    decreases upto,
{
    if upto > 0 {
        lemma_cuts_below_len(path, upto - 1);
    }
}

/// The cuts below `upto` are exactly the positions below `upto` that are
/// cuts, each once, and they ascend.
pub proof fn lemma_cuts_below(path: Seq<char>, upto: int)
    requires
        0 <= upto <= path.len() + 1,
    ensures
        forall|j: int|
            0 <= j < cuts_below(path, upto).len() ==> 0 <= #[trigger] cuts_below(path, upto)[j]
                < upto && is_cut(path, cuts_below(path, upto)[j]),
        forall|i: int, j: int|
            0 <= i < j < cuts_below(path, upto).len() ==> cuts_below(path, upto)[i]
                < cuts_below(path, upto)[j],
        forall|e: int|
            0 <= e < upto && is_cut(path, e) ==> cuts_below(path, upto).contains(e),
    decreases upto,
{
    if upto > 0 {
        lemma_cuts_below(path, upto - 1);
        let prev = cuts_below(path, upto - 1);
        let cur = cuts_below(path, upto);
        assert forall|e: int| 0 <= e < upto && is_cut(path, e) implies cur.contains(e) by {
            if e < upto - 1 {
                let j = choose|j: int| 0 <= j < prev.len() && prev[j] == e;
                assert(cur[j] == e);
            } else {
                assert(cur[cur.len() - 1] == e);
            }
        }
    }
}

/// A path with `k` slashes has `k + 1` ancestors, itself included; the chain
/// ends with the path itself, and every path in it is an ancestor.
pub proof fn lemma_path_chain(path: Seq<char>)
    ensures
        path_chain(path).len() == slash_count(path) + 1,
        path_chain(path).last().0 == path,
        forall|j: int|
            0 <= j < path_chain(path).len() ==> contained(
                (#[trigger] path_chain(path)[j]).0,
                path,
            ),
{
    let n = path.len() as int;
    lemma_cuts_below_len(path, n);
    lemma_cuts_below(path, n + 1);
    assert(is_cut(path, n));
    assert(cuts(path) == cuts_below(path, n).push(n));
    assert(path.take(n) =~= path);
    assert forall|j: int| 0 <= j < path_chain(path).len() implies contained(
        (#[trigger] path_chain(path)[j]).0,
        path,
    ) by {
        let e = cuts(path)[j];
        assert(is_cut(path, e));
        lemma_cut_is_ancestor(path, e);
    }
}

/// The prefix of a path that ends at a cut is an ancestor of the path.
pub proof fn lemma_cut_is_ancestor(path: Seq<char>, e: int)
    requires
        is_cut(path, e),
    ensures
        contained(path.take(e), path),
{
    if e == path.len() {
        assert(path.take(e) =~= path);
    } else {
        let p = path.take(e) + seq!['/'];
        assert(p =~= path.take(e + 1));
    }
}

/// An ancestor of a path is the prefix that ends at one of its cuts.
pub proof fn lemma_ancestor_is_cut(part: Seq<char>, path: Seq<char>)
    requires
        contained(part, path),
    ensures
        is_cut(path, part.len() as int),
        part == path.take(part.len() as int),
{
    if part == path {
        assert(path.take(path.len() as int) =~= path);
    } else {
        let p = part + seq!['/'];
        assert(p.len() == part.len() + 1);
        assert(p =~= path.subrange(0, p.len() as int));
        assert(path[part.len() as int] == p[part.len() as int]);
        assert(part =~= path.take(part.len() as int)) by {
            assert forall|i: int| 0 <= i < part.len() implies part[i] == path[i] by {
                assert(p[i] == path.subrange(0, p.len() as int)[i]);
            }
        }
    }
}

/// The paths of the ancestor chain of `path` are exactly the paths that
/// `contained` accepts for it.
pub proof fn lemma_chain_paths_are_ancestors(part: Seq<char>, path: Seq<char>)
    ensures
        chain_paths(path_chain(path)).contains(part) <==> contained(part, path),
{
    let chain = path_chain(path);
    let paths = chain_paths(chain);
    lemma_cuts_below(path, path.len() as int + 1);
    if paths.contains(part) {
        let j = choose|j: int| 0 <= j < paths.len() && paths[j] == part;
        let e = cuts(path)[j];
        assert(chain[j] == node_at(path, e));
        lemma_cut_is_ancestor(path, e);
    }
    if contained(part, path) {
        lemma_ancestor_is_cut(part, path);
        let e = part.len() as int;
        assert(cuts(path).contains(e));
        let j = choose|j: int| 0 <= j < cuts(path).len() && cuts(path)[j] == e;
        assert(chain[j] == node_at(path, e));
        assert(paths[j] == part);
    }
}

/// No path occurs twice in an ancestor chain.
pub proof fn lemma_chain_paths_distinct(path: Seq<char>)
    ensures
        chain_paths(path_chain(path)).no_duplicates(),
{
    let chain = path_chain(path);
    let paths = chain_paths(chain);
    lemma_cuts_below(path, path.len() as int + 1);
    assert forall|i: int, j: int| 0 <= i < paths.len() && 0 <= j < paths.len() && i != j implies paths[i]
        != paths[j] by {
        let a = cuts(path)[i];
        let b = cuts(path)[j];
        assert(paths[i] == path.take(a));
        assert(paths[j] == path.take(b));
        assert(a != b);
        assert(path.take(a).len() == a);
        assert(path.take(b).len() == b);
    }
}

} // verus!
