//! Building the transitive graph from a pre-loaded adjacency list.

use crate::graph::GraphStore;
use crate::names::{clone_names, names_of, NameSet};
use crate::reach::{lemma_build_complete, lemma_build_sound, reachable_within};
use crate::traversal::{bound_of, built_graph, children_at, direct_deps, pushed, traverse};
use vstd::prelude::*;

verus! {

/// The work stack as the model sees it: names by their characters, depths as
/// natural numbers.
pub open spec fn work_items(stack: Seq<(String, usize)>) -> Seq<(Seq<char>, nat)> {
    Seq::new(stack.len(), |i: int| (stack[i].0@, stack[i].1 as nat))
}

/// Expands the adjacency list `graph_raw` from `start` into the graph of
/// everything that the traversal reaches, following dependencies no deeper
/// than `max_depth` where one is given (the root has depth 0).
///
/// A name without an entry in `graph_raw` is recorded with no dependencies.
///
/// The result is the graph that the traversal discipline defines. It always
/// holds `start`. Each of its entries belongs to a name reached from `start`
/// within the bound and holds that name's full dependency list, so that an
/// edge out of a name at the bound is kept though its target may have no
/// entry. Without a bound the entries are exactly the names reachable from
/// `start`, each recorded once.
pub fn build_test_graph(start: &str, graph_raw: &GraphStore, max_depth: Option<usize>) -> (graph:
    GraphStore)
    ensures
        graph@ == built_graph(graph_raw@, start@, bound_of(max_depth)),
        graph@.dom().contains(start@),
        forall|k: Seq<char>| #[trigger]
            graph@.dom().contains(k) ==> {
                &&& reachable_within(graph_raw@, start@, k, bound_of(max_depth))
                &&& graph@[k] == direct_deps(graph_raw@, k)
            },
        max_depth is None ==> forall|k: Seq<char>| #[trigger]
            graph@.dom().contains(k) <==> reachable_within(graph_raw@, start@, k, None),
{
    let ghost source = graph_raw@;
    let ghost bound = bound_of(max_depth);
    let mut graph = GraphStore::new();
    let mut visited = NameSet::new();
    let mut stack: Vec<(String, usize)> = Vec::new();
    stack.push((start.to_string(), 0));
    proof {
        graph_raw.lemma_finite();
        graph.lemma_finite();
    }
    while stack.len() > 0
        invariant
            source == graph_raw@,
            bound == bound_of(max_depth),
            source.dom().finite(),
            visited@ == graph@.dom(),
            visited@.finite(),
            forall|i: int| 0 <= i < stack.len() ==> (#[trigger] stack[i]).1 <= visited@.len(),
            traverse(source, bound, work_items(stack@), graph@) == built_graph(
                source,
                start@,
                bound,
            ),
        decreases source.dom().difference(graph@.dom()).len(), stack.len(),
    {
        let ghost items = work_items(stack@);
        let ghost before = graph@;
        let (node, depth) = stack.pop().unwrap();
        assert(work_items(stack@) =~= items.drop_last());
        if !visited.contains(&node) {
            let deps = match graph_raw.get(&node) {
                Some(list) => clone_names(list),
                None => Vec::new(),
            };
            assert(names_of(deps@) =~= direct_deps(source, node@));
            proof {
                crate::traversal::lemma_expansion_decreases(
                    source,
                    bound,
                    before,
                    node@,
                    depth as nat,
                );
            }
            visited.insert(node.clone());
            graph.insert(node, clone_names(&deps));
            let seen = visited.len();
            let descend = match max_depth {
                Some(max) => depth < max,
                None => true,
            };
            if descend {
                let ghost rest = work_items(stack@);
                let mut i: usize = 0;
                while i < deps.len()
                    invariant
                        i <= deps.len(),
                        depth < seen,
                        seen == visited@.len(),
                        forall|j: int|
                            0 <= j < stack.len() ==> (#[trigger] stack[j]).1 <= visited@.len(),
                        work_items(stack@) == rest + children_at(
                            names_of(deps@).take(i as int),
                            (depth + 1) as nat,
                        ),
                    decreases deps.len() - i,
                {
                    let ghost prev = work_items(stack@);
                    let dep = deps[i].clone();
                    stack.push((dep, depth + 1));
                    i += 1;
                    assert(work_items(stack@) =~= prev.push((dep@, (depth + 1) as nat)));
                }
            }
            assert(work_items(stack@) =~= items.drop_last() + pushed(
                source,
                bound,
                items.last().0,
                items.last().1,
            ));
        }
    }
    proof {
        lemma_build_sound(source, start@, bound);
        if max_depth is None {
            lemma_build_complete(source, start@);
        }
    }
    graph
}

} // verus!
