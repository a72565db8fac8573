//! The traversal discipline that every graph builder follows, as a
//! mathematical model.
//!
//! A build keeps a work stack of `(name, depth)` pairs and the graph recorded
//! so far. It takes the top of the stack; a name that already has an entry is
//! dropped; any other name is recorded with its full list of direct
//! dependencies, and its dependencies are put on the stack one level deeper
//! unless the name sits at the depth bound.

use vstd::prelude::*;

verus! {

/// The direct dependencies of `node` in `source`: its list, or none where
/// `source` has no entry for it.
pub open spec fn direct_deps(source: Map<Seq<char>, Seq<Seq<char>>>, node: Seq<char>) -> Seq<
    Seq<char>,
> {
    if source.dom().contains(node) {
        source[node]
    } else {
        Seq::empty()
    }
}

/// The depth bound as a natural number.
pub open spec fn bound_of(max_depth: Option<usize>) -> Option<nat> {
    match max_depth {
        Some(max) => Some(max as nat),
        None => None,
    }
}

/// Whether a node at `depth` has reached `bound`, so that its dependencies
/// are not followed.
pub open spec fn at_bound(bound: Option<nat>, depth: nat) -> bool {
    match bound {
        Some(max) => depth >= max,
        None => false,
    }
}

/// The work items for `deps`, in order, all at `depth`.
pub open spec fn children_at(deps: Seq<Seq<char>>, depth: nat) -> Seq<(Seq<char>, nat)> {
    Seq::new(deps.len(), |i: int| (deps[i], depth))
}

/// The work items that expanding `node` at `depth` adds to the stack.
pub open spec fn pushed(
    source: Map<Seq<char>, Seq<Seq<char>>>,
    bound: Option<nat>,
    node: Seq<char>,
    depth: nat,
) -> Seq<(Seq<char>, nat)> {
    if at_bound(bound, depth) {
        Seq::empty()
    } else {
        children_at(direct_deps(source, node), depth + 1)
    }
}

/// The graph that a build ends with when it starts from the work stack
/// `stack` (top last) and the entries `graph`, reading direct dependencies
/// from `source`.
pub open spec fn traverse(
    source: Map<Seq<char>, Seq<Seq<char>>>,
    bound: Option<nat>,
    stack: Seq<(Seq<char>, nat)>,
    graph: Map<Seq<char>, Seq<Seq<char>>>,
) -> Map<Seq<char>, Seq<Seq<char>>>
    decreases source.dom().difference(graph.dom()).len(), stack.len(),
    when source.dom().finite()
{
    if stack.len() == 0 {
        graph
    } else {
        let (node, depth) = stack.last();
        let rest = stack.drop_last();
        if graph.dom().contains(node) {
            traverse(source, bound, rest, graph)
        } else {
            proof {
                lemma_expansion_decreases(source, bound, graph, node, depth);
            }
            traverse(
                source,
                bound,
                rest + pushed(source, bound, node, depth),
                graph.insert(node, direct_deps(source, node)),
            )
        }
    }
}

/// Recording a new node either uses up one of the source's entries, or adds
/// nothing to the work stack.
pub proof fn lemma_expansion_decreases(
    source: Map<Seq<char>, Seq<Seq<char>>>,
    bound: Option<nat>,
    graph: Map<Seq<char>, Seq<Seq<char>>>,
    node: Seq<char>,
    depth: nat,
)
    requires
        source.dom().finite(),
        !graph.dom().contains(node),
    ensures
        ({
            let left = source.dom().difference(graph.dom());
            let left2 = source.dom().difference(graph.insert(node, direct_deps(source, node)).dom());
            if source.dom().contains(node) {
                left2.len() < left.len()
            } else {
                left2.len() == left.len() && pushed(source, bound, node, depth).len() == 0
            }
        }),
{
    let left = source.dom().difference(graph.dom());
    let left2 = source.dom().difference(graph.insert(node, direct_deps(source, node)).dom());
    if source.dom().contains(node) {
        assert(left2 =~= left.remove(node));
    } else {
        assert(left2 =~= left);
    }
}

/// The graph that a build from `start` ends with.
pub open spec fn built_graph(
    source: Map<Seq<char>, Seq<Seq<char>>>,
    start: Seq<char>,
    bound: Option<nat>,
) -> Map<Seq<char>, Seq<Seq<char>>> {
    traverse(source, bound, seq![(start, 0nat)], Map::empty())
}

} // verus!
