//! What a finished build holds, stated over paths in the source graph.

use crate::traversal::{built_graph, children_at, direct_deps, pushed, traverse};
use vstd::prelude::*;

verus! {

/// Whether `source` lists `to` among the direct dependencies of `from`.
pub open spec fn edge(source: Map<Seq<char>, Seq<Seq<char>>>, from: Seq<char>, to: Seq<char>) -> bool {
    direct_deps(source, from).contains(to)
}

/// Whether each name of `path` but the first is a direct dependency of the
/// name before it.
pub open spec fn is_path(source: Map<Seq<char>, Seq<Seq<char>>>, path: Seq<Seq<char>>) -> bool {
    &&& path.len() > 0
    &&& forall|i: int| 0 <= i < path.len() - 1 ==> #[trigger] edge(source, path[i], path[i + 1])
}

/// Whether some path of exactly `hops` edges leads from `start` to `node`.
pub open spec fn reaches_in(
    source: Map<Seq<char>, Seq<Seq<char>>>,
    start: Seq<char>,
    node: Seq<char>,
    hops: nat,
) -> bool {
    exists|path: Seq<Seq<char>>|
        #[trigger] is_path(source, path) && path.len() == hops + 1 && path[0] == start
            && path.last() == node
}

/// Whether `node` can be reached from `start` along direct-dependency edges,
/// with no more than `bound` edges where a bound is given.
pub open spec fn reachable_within(
    source: Map<Seq<char>, Seq<Seq<char>>>,
    start: Seq<char>,
    node: Seq<char>,
    bound: Option<nat>,
) -> bool {
    exists|hops: nat|
        #[trigger] reaches_in(source, start, node, hops) && (bound matches Some(max) ==> hops
            <= max)
}

/// Whether `name` is somewhere on the work stack.
pub open spec fn on_stack(stack: Seq<(Seq<char>, nat)>, name: Seq<char>) -> bool {
    exists|i: int| 0 <= i < stack.len() && (#[trigger] stack[i]).0 == name
}

/// Every start reaches itself with no edge.
pub proof fn lemma_reaches_itself(source: Map<Seq<char>, Seq<Seq<char>>>, start: Seq<char>)
    ensures
        reaches_in(source, start, start, 0),
{
    let path = seq![start];
    assert(is_path(source, path));
}

/// A path can be extended by one edge.
pub proof fn lemma_reaches_step(
    source: Map<Seq<char>, Seq<Seq<char>>>,
    start: Seq<char>,
    node: Seq<char>,
    hops: nat,
    next: Seq<char>,
)
    requires
        reaches_in(source, start, node, hops),
        edge(source, node, next),
    ensures
        reaches_in(source, start, next, hops + 1),
{
    let path = choose|path: Seq<Seq<char>>|
        #[trigger] is_path(source, path) && path.len() == hops + 1 && path[0] == start
            && path.last() == node;
    let longer = path.push(next);
    assert forall|i: int| 0 <= i < longer.len() - 1 implies #[trigger] edge(
        source,
        longer[i],
        longer[i + 1],
    ) by {
        if i < path.len() - 1 {
            assert(edge(source, path[i], path[i + 1]));
        }
    }
    assert(is_path(source, longer));
}

/// Whether every work item is reached from `start` in as many edges as its
/// depth, and none lies beyond the bound.
pub open spec fn stack_sound(
    source: Map<Seq<char>, Seq<Seq<char>>>,
    start: Seq<char>,
    bound: Option<nat>,
    stack: Seq<(Seq<char>, nat)>,
) -> bool {
    forall|i: int|
        0 <= i < stack.len() ==> {
            &&& reaches_in(source, start, (#[trigger] stack[i]).0, stack[i].1)
            &&& bound matches Some(max) ==> stack[i].1 <= max
        }
}

/// Whether every entry belongs to a name reached from `start` within the
/// bound and holds that name's full list of direct dependencies.
pub open spec fn graph_sound(
    source: Map<Seq<char>, Seq<Seq<char>>>,
    start: Seq<char>,
    bound: Option<nat>,
    graph: Map<Seq<char>, Seq<Seq<char>>>,
) -> bool {
    forall|k: Seq<char>| #[trigger]
        graph.dom().contains(k) ==> reachable_within(source, start, k, bound) && graph[k]
            == direct_deps(source, k)
}

/// A traversal that starts from sound work items and sound entries ends with
/// sound entries.
pub proof fn lemma_traverse_sound(
    source: Map<Seq<char>, Seq<Seq<char>>>,
    start: Seq<char>,
    bound: Option<nat>,
    stack: Seq<(Seq<char>, nat)>,
    graph: Map<Seq<char>, Seq<Seq<char>>>,
)
    requires
        source.dom().finite(),
        stack_sound(source, start, bound, stack),
        graph_sound(source, start, bound, graph),
    ensures
        graph_sound(source, start, bound, traverse(source, bound, stack, graph)),
    decreases source.dom().difference(graph.dom()).len(), stack.len(),
{
    if stack.len() > 0 {
        let (node, depth) = stack.last();
        let rest = stack.drop_last();
        assert forall|i: int| 0 <= i < rest.len() implies {
            &&& reaches_in(source, start, (#[trigger] rest[i]).0, rest[i].1)
            &&& bound matches Some(max) ==> rest[i].1 <= max
        } by {
            assert(rest[i] == stack[i]);
        }
        if graph.dom().contains(node) {
            lemma_traverse_sound(source, start, bound, rest, graph);
        } else {
            crate::traversal::lemma_expansion_decreases(source, bound, graph, node, depth);
            let more = pushed(source, bound, node, depth);
            let stack2 = rest + more;
            let graph2 = graph.insert(node, direct_deps(source, node));
            assert(reaches_in(source, start, node, depth));
            assert forall|i: int| 0 <= i < stack2.len() implies {
                &&& reaches_in(source, start, (#[trigger] stack2[i]).0, stack2[i].1)
                &&& bound matches Some(max) ==> stack2[i].1 <= max
            } by {
                if i < rest.len() {
                    assert(stack2[i] == rest[i]);
                } else {
                    let j = i - rest.len();
                    let deps = direct_deps(source, node);
                    assert(stack2[i] == more[j]);
                    assert(more[j] == (deps[j], depth + 1));
                    assert(edge(source, node, deps[j]));
                    lemma_reaches_step(source, start, node, depth, deps[j]);
                }
            }
            lemma_traverse_sound(source, start, bound, stack2, graph2);
        }
    }
}

/// A traversal keeps the entries it starts with and gives an entry to every
/// name on its work stack.
pub proof fn lemma_traverse_covers(
    source: Map<Seq<char>, Seq<Seq<char>>>,
    bound: Option<nat>,
    stack: Seq<(Seq<char>, nat)>,
    graph: Map<Seq<char>, Seq<Seq<char>>>,
)
    requires
        source.dom().finite(),
    ensures
        graph.dom().subset_of(traverse(source, bound, stack, graph).dom()),
        forall|name: Seq<char>|
            on_stack(stack, name) ==> #[trigger] traverse(
                source,
                bound,
                stack,
                graph,
            ).dom().contains(name),
    decreases source.dom().difference(graph.dom()).len(), stack.len(),
{
    if stack.len() > 0 {
        let (node, depth) = stack.last();
        let rest = stack.drop_last();
        let end = traverse(source, bound, stack, graph);
        if graph.dom().contains(node) {
            lemma_traverse_covers(source, bound, rest, graph);
        } else {
            crate::traversal::lemma_expansion_decreases(source, bound, graph, node, depth);
            let more = pushed(source, bound, node, depth);
            let graph2 = graph.insert(node, direct_deps(source, node));
            lemma_traverse_covers(source, bound, rest + more, graph2);
            assert forall|name: Seq<char>| on_stack(rest, name) implies on_stack(
                rest + more,
                name,
            ) by {
                let i = choose|i: int| 0 <= i < rest.len() && (#[trigger] rest[i]).0 == name;
                assert((rest + more)[i] == rest[i]);
            }
        }
        assert forall|name: Seq<char>| on_stack(stack, name) implies end.dom().contains(name) by {
            let i = choose|i: int| 0 <= i < stack.len() && (#[trigger] stack[i]).0 == name;
            if i < stack.len() - 1 {
                assert(rest[i] == stack[i]);
                assert(on_stack(rest, name));
            }
        }
    }
}

/// Whether every direct dependency of every recorded name is recorded too or
/// waits on the work stack.
pub open spec fn frontier_closed(
    source: Map<Seq<char>, Seq<Seq<char>>>,
    stack: Seq<(Seq<char>, nat)>,
    graph: Map<Seq<char>, Seq<Seq<char>>>,
) -> bool {
    forall|k: Seq<char>, d: Seq<char>|
        graph.dom().contains(k) && #[trigger] edge(source, k, d) ==> graph.dom().contains(d)
            || on_stack(stack, d)
}

/// Without a depth bound, a traversal ends with a graph in which every direct
/// dependency of a recorded name is recorded.
pub proof fn lemma_traverse_closed(
    source: Map<Seq<char>, Seq<Seq<char>>>,
    stack: Seq<(Seq<char>, nat)>,
    graph: Map<Seq<char>, Seq<Seq<char>>>,
)
    requires
        source.dom().finite(),
        frontier_closed(source, stack, graph),
    ensures
        frontier_closed(source, Seq::empty(), traverse(source, None, stack, graph)),
    decreases source.dom().difference(graph.dom()).len(), stack.len(),
{
    if stack.len() > 0 {
        let (node, depth) = stack.last();
        let rest = stack.drop_last();
        if graph.dom().contains(node) {
            assert forall|k: Seq<char>, d: Seq<char>|
                graph.dom().contains(k) && #[trigger] edge(source, k, d) implies graph.dom().contains(
                d,
            ) || on_stack(rest, d) by {
                if !graph.dom().contains(d) {
                    let i = choose|i: int| 0 <= i < stack.len() && (#[trigger] stack[i]).0 == d;
                    assert(rest[i] == stack[i]);
                }
            }
            lemma_traverse_closed(source, rest, graph);
        } else {
            crate::traversal::lemma_expansion_decreases(source, None, graph, node, depth);
            let deps = direct_deps(source, node);
            let more = children_at(deps, depth + 1);
            let stack2 = rest + more;
            let graph2 = graph.insert(node, deps);
            assert forall|k: Seq<char>, d: Seq<char>|
                graph2.dom().contains(k) && #[trigger] edge(source, k, d) implies graph2.dom().contains(
                d,
            ) || on_stack(stack2, d) by {
                if k == node {
                    let j = choose|j: int| 0 <= j < deps.len() && deps[j] == d;
                    assert(stack2[rest.len() + j].0 == d);
                } else if !graph.dom().contains(d) {
                    let i = choose|i: int| 0 <= i < stack.len() && (#[trigger] stack[i]).0 == d;
                    if i < stack.len() - 1 {
                        assert(stack2[i] == stack[i]);
                    }
                }
            }
            lemma_traverse_closed(source, stack2, graph2);
        }
    }
}

/// In a graph that holds `start` and every direct dependency of what it
/// holds, every name reached from `start` has an entry.
pub proof fn lemma_closed_holds_reached(
    source: Map<Seq<char>, Seq<Seq<char>>>,
    graph: Map<Seq<char>, Seq<Seq<char>>>,
    path: Seq<Seq<char>>,
)
    requires
        frontier_closed(source, Seq::empty(), graph),
        is_path(source, path),
        graph.dom().contains(path[0]),
    ensures
        graph.dom().contains(path.last()),
    decreases path.len(),
{
    if path.len() > 1 {
        let shorter = path.drop_last();
        assert forall|i: int| 0 <= i < shorter.len() - 1 implies #[trigger] edge(
            source,
            shorter[i],
            shorter[i + 1],
        ) by {
            assert(edge(source, path[i], path[i + 1]));
        }
        lemma_closed_holds_reached(source, graph, shorter);
        assert(edge(source, path[path.len() - 2], path[path.len() - 2 + 1]));
    }
}

/// Every entry of a built graph belongs to a name that is reached from the
/// start within the depth bound, and holds the full list of that name's
/// direct dependencies, also where the name sits at the bound. The start
/// itself always has an entry.
pub proof fn lemma_build_sound(
    source: Map<Seq<char>, Seq<Seq<char>>>,
    start: Seq<char>,
    bound: Option<nat>,
)
    requires
        source.dom().finite(),
    ensures
        built_graph(source, start, bound).dom().contains(start),
        forall|k: Seq<char>| #[trigger]
            built_graph(source, start, bound).dom().contains(k) ==> {
                &&& reachable_within(source, start, k, bound)
                &&& built_graph(source, start, bound)[k] == direct_deps(source, k)
            },
{
    let stack = seq![(start, 0nat)];
    let empty = Map::<Seq<char>, Seq<Seq<char>>>::empty();
    lemma_reaches_itself(source, start);
    lemma_traverse_sound(source, start, bound, stack, empty);
    lemma_traverse_covers(source, bound, stack, empty);
}

/// Without a depth bound, the built graph has an entry for a name exactly
/// when the name can be reached from the start, however many paths lead to
/// it and whether or not the source graph has cycles.
pub proof fn lemma_build_complete(source: Map<Seq<char>, Seq<Seq<char>>>, start: Seq<char>)
    requires
        source.dom().finite(),
    ensures
        forall|k: Seq<char>| #[trigger]
            built_graph(source, start, None).dom().contains(k) <==> reachable_within(
                source,
                start,
                k,
                None,
            ),
{
    let stack = seq![(start, 0nat)];
    let empty = Map::<Seq<char>, Seq<Seq<char>>>::empty();
    let end = built_graph(source, start, None);
    lemma_build_sound(source, start, None);
    lemma_traverse_closed(source, stack, empty);
    assert forall|k: Seq<char>| reachable_within(source, start, k, None) implies end.dom().contains(
        k,
    ) by {
        let hops = choose|hops: nat| #[trigger] reaches_in(source, start, k, hops);
        let path = choose|path: Seq<Seq<char>>|
            #[trigger] is_path(source, path) && path.len() == hops + 1 && path[0] == start
                && path.last() == k;
        lemma_closed_holds_reached(source, end, path);
    }
}

} // verus!
