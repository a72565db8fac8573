//! Rendering a graph as an ASCII tree.
//!
//! The tree is walked depth first from the root, parents before children
//! and children in the order of their parent's list. Every node met gets a
//! line. A node that has had a line before is marked as a cycle and not
//! descended into; a node at the depth bound that has children gets one
//! placeholder line in their place.

use crate::graph::GraphStore;
use crate::names::{names_of, NameSet};
use crate::traversal::{at_bound, bound_of, direct_deps};
use vstd::prelude::*;

verus! {

/// A node that waits to be rendered: its name, the indentation of its line,
/// whether it is the last child of its parent, and its depth.
pub struct Frame {
    pub node: Seq<char>,
    pub prefix: Seq<char>,
    pub last: bool,
    pub depth: nat,
}

/// The branch glyph in front of a node: one for a last child, one for a
/// child with siblings after it.
pub open spec fn connector(last: bool) -> Seq<char> {
    if last {
        "└── "@
    } else {
        "├── "@
    }
}

/// What a node adds to the indentation of its children: blank padding under
/// a last child, a vertical bar under a child with siblings after it.
pub open spec fn padding(last: bool) -> Seq<char> {
    if last {
        "    "@
    } else {
        "│   "@
    }
}

/// The line of a node.
pub open spec fn node_line(frame: Frame) -> Seq<char> {
    frame.prefix + connector(frame.last) + frame.node
}

/// The line under a node that was rendered before.
pub open spec fn cycle_line(frame: Frame) -> Seq<char> {
    frame.prefix + "    (цикл: узел "@ + frame.node + ")"@
}

/// The line that stands for the children of a node at the depth bound.
pub open spec fn truncation_line(frame: Frame) -> Seq<char> {
    frame.prefix + "    ... (ограничение глубины)"@
}

/// The frames of the children of `parent`, in the order in which they are
/// put on the work stack: the last child first, so that the first child is
/// rendered first.
pub open spec fn child_frames(children: Seq<Seq<char>>, parent: Frame) -> Seq<Frame> {
    Seq::new(
        children.len(),
        |i: int|
            Frame {
                node: children[children.len() - 1 - i],
                prefix: parent.prefix + padding(parent.last),
                last: i == 0,
                depth: parent.depth + 1,
            },
    )
}

/// The lines that rendering the work stack `stack` (top last) gives when the
/// nodes in `seen` have been rendered before.
///
/// The frame on top gets its line. If its node was rendered before, the line
/// is followed by the cycle note and nothing else, at the bound as anywhere
/// else. Otherwise the node counts as rendered from here on. At the bound its
/// children are neither looked at nor counted as rendered: if it has any, one
/// placeholder line stands for them. Above the bound its children are
/// rendered next, in the order of its list.
pub open spec fn render(
    graph: Map<Seq<char>, Seq<Seq<char>>>,
    bound: Option<nat>,
    stack: Seq<Frame>,
    seen: Set<Seq<char>>,
) -> Seq<Seq<char>>
    decreases graph.dom().difference(seen).len(), stack.len(),
    when graph.dom().finite()
{
    if stack.len() == 0 {
        Seq::empty()
    } else {
        let frame = stack.last();
        let rest = stack.drop_last();
        if seen.contains(frame.node) {
            seq![node_line(frame), cycle_line(frame)] + render(graph, bound, rest, seen)
        } else {
            let children = direct_deps(graph, frame.node);
            proof {
                lemma_descent_decreases(graph, seen, frame.node);
            }
            if at_bound(bound, frame.depth) {
                if children.len() > 0 {
                    seq![node_line(frame), truncation_line(frame)] + render(
                        graph,
                        bound,
                        rest,
                        seen.insert(frame.node),
                    )
                } else {
                    seq![node_line(frame)] + render(graph, bound, rest, seen.insert(frame.node))
                }
            } else {
                seq![node_line(frame)] + render(
                    graph,
                    bound,
                    rest + child_frames(children, frame),
                    seen.insert(frame.node),
                )
            }
        }
    }
}

/// Rendering a node for the first time either uses up one of the graph's
/// entries, or the node has no children.
pub proof fn lemma_descent_decreases(
    graph: Map<Seq<char>, Seq<Seq<char>>>,
    seen: Set<Seq<char>>,
    node: Seq<char>,
)
    requires
        graph.dom().finite(),
        !seen.contains(node),
    ensures
        ({
            let left = graph.dom().difference(seen);
            let left2 = graph.dom().difference(seen.insert(node));
            if graph.dom().contains(node) {
                left2.len() < left.len()
            } else {
                left2.len() == left.len() && direct_deps(graph, node).len() == 0
            }
        }),
{
    let left = graph.dom().difference(seen);
    let left2 = graph.dom().difference(seen.insert(node));
    if graph.dom().contains(node) {
        assert(left2 =~= left.remove(node));
    } else {
        assert(left2 =~= left);
    }
}

/// The nodes that have been rendered once the work stack `stack` is done,
/// when the nodes in `seen` had been rendered before.
pub open spec fn seen_after(
    graph: Map<Seq<char>, Seq<Seq<char>>>,
    bound: Option<nat>,
    stack: Seq<Frame>,
    seen: Set<Seq<char>>,
) -> Set<Seq<char>>
    decreases graph.dom().difference(seen).len(), stack.len(),
    when graph.dom().finite()
{
    if stack.len() == 0 {
        seen
    } else {
        let frame = stack.last();
        let rest = stack.drop_last();
        if seen.contains(frame.node) {
            seen_after(graph, bound, rest, seen)
        } else {
            proof {
                lemma_descent_decreases(graph, seen, frame.node);
            }
            if at_bound(bound, frame.depth) {
                seen_after(graph, bound, rest, seen.insert(frame.node))
            } else {
                seen_after(
                    graph,
                    bound,
                    rest + child_frames(direct_deps(graph, frame.node), frame),
                    seen.insert(frame.node),
                )
            }
        }
    }
}

/// What is rendered for the frames on top of a work stack does not depend
/// on the frames below them: the lines of `below + above` are the lines of
/// `above`, followed by the lines of `below` with the nodes of `above`
/// seen. So the work stack renders each node with all that hangs under it
/// before it turns to the node's next sibling.
pub proof fn lemma_render_splits(
    graph: Map<Seq<char>, Seq<Seq<char>>>,
    bound: Option<nat>,
    below: Seq<Frame>,
    above: Seq<Frame>,
    seen: Set<Seq<char>>,
)
    requires
        graph.dom().finite(),
    ensures
        render(graph, bound, below + above, seen) == render(graph, bound, above, seen) + render(
            graph,
            bound,
            below,
            seen_after(graph, bound, above, seen),
        ),
        seen_after(graph, bound, below + above, seen) == seen_after(
            graph,
            bound,
            below,
            seen_after(graph, bound, above, seen),
        ),
    decreases graph.dom().difference(seen).len(), above.len(),
{
    if above.len() > 0 {
        let frame = above.last();
        let rest = above.drop_last();
        assert((below + above).drop_last() =~= below + rest);
        if seen.contains(frame.node) {
            lemma_render_splits(graph, bound, below, rest, seen);
        } else {
            lemma_descent_decreases(graph, seen, frame.node);
            let seen2 = seen.insert(frame.node);
            if at_bound(bound, frame.depth) {
                lemma_render_splits(graph, bound, below, rest, seen2);
            } else {
                let more = child_frames(direct_deps(graph, frame.node), frame);
                assert((below + rest) + more =~= below + (rest + more));
                lemma_render_splits(graph, bound, below, rest + more, seen2);
            }
        }
    }
}

/// A node that was rendered before gets its line once more, marked as a
/// cycle, and nothing under it, whatever the graph holds for it.
pub proof fn lemma_seen_node_is_not_descended(
    graph: Map<Seq<char>, Seq<Seq<char>>>,
    bound: Option<nat>,
    frame: Frame,
    seen: Set<Seq<char>>,
)
    requires
        graph.dom().finite(),
        seen.contains(frame.node),
    ensures
        render(graph, bound, seq![frame], seen) == seq![node_line(frame), cycle_line(frame)],
        seen_after(graph, bound, seq![frame], seen) == seen,
{
    let none = Seq::<Frame>::empty();
    assert(seq![frame].drop_last() =~= none);
    assert(render(graph, bound, none, seen) =~= Seq::<Seq<char>>::empty());
    assert(seen_after(graph, bound, none, seen) == seen);
}

/// A node that is rendered for the first time above the bound gets its
/// line, and under it its children in the order of its list: each child
/// with all that hangs under it, with the nodes seen that were rendered up
/// to there.
pub proof fn lemma_first_rendering_descends(
    graph: Map<Seq<char>, Seq<Seq<char>>>,
    bound: Option<nat>,
    frame: Frame,
    seen: Set<Seq<char>>,
)
    requires
        graph.dom().finite(),
        !seen.contains(frame.node),
        !at_bound(bound, frame.depth),
    ensures
        render(graph, bound, seq![frame], seen) == seq![node_line(frame)] + render(
            graph,
            bound,
            child_frames(direct_deps(graph, frame.node), frame),
            seen.insert(frame.node),
        ),
{
}

/// The frame of the root: no indentation, and the glyph of a last child.
pub open spec fn root_frame(root: Seq<char>) -> Frame {
    Frame { node: root, prefix: Seq::empty(), last: true, depth: 0 }
}

/// The lines of the tree of `graph` under `root`.
pub open spec fn tree_lines(
    graph: Map<Seq<char>, Seq<Seq<char>>>,
    root: Seq<char>,
    bound: Option<nat>,
) -> Seq<Seq<char>> {
    render(graph, bound, seq![root_frame(root)], Set::empty())
}

/// With the bound 0 the tree is the line of the root, followed by one
/// placeholder line where the root has children, and nothing else.
pub proof fn lemma_bound_zero_shows_root_only(
    graph: Map<Seq<char>, Seq<Seq<char>>>,
    root: Seq<char>,
)
    requires
        graph.dom().finite(),
    ensures
        tree_lines(graph, root, Some(0)) == if direct_deps(graph, root).len() > 0 {
            seq![node_line(root_frame(root)), truncation_line(root_frame(root))]
        } else {
            seq![node_line(root_frame(root))]
        },
{
    let none = Seq::<Frame>::empty();
    assert(seq![root_frame(root)].drop_last() =~= none);
    assert(render(graph, Some(0), none, Set::<Seq<char>>::empty().insert(root)) =~= Seq::<
        Seq<char>,
    >::empty());
}

/// The work stack of the renderer as the model sees it.
pub open spec fn frames_of(stack: Seq<(String, String, bool, usize)>) -> Seq<Frame> {
    Seq::new(
        stack.len(),
        |i: int|
            Frame {
                node: stack[i].0@,
                prefix: stack[i].1@,
                last: stack[i].2,
                depth: stack[i].3 as nat,
            },
    )
}

/// Renders the tree of `graph` under `root`, one line per element, showing
/// children of nodes no deeper than `max_depth` where one is given. The
/// bound is applied whatever bound the graph was built with.
pub fn render_ascii_tree(graph: &GraphStore, root: &str, max_depth: Option<usize>) -> (lines: Vec<
    String,
>)
    ensures
        lines.deep_view() == tree_lines(graph@, root@, bound_of(max_depth)),
{
    let ghost bound = bound_of(max_depth);
    let ghost whole = tree_lines(graph@, root@, bound);
    let mut lines: Vec<String> = Vec::new();
    let mut seen = NameSet::new();
    let mut stack: Vec<(String, String, bool, usize)> = Vec::new();
    stack.push((root.to_string(), String::new(), true, 0));
    proof {
        graph.lemma_finite();
        seen.lemma_finite();
        assert(frames_of(stack@) =~= seq![root_frame(root@)]);
    }
    while stack.len() > 0
        invariant
            bound == bound_of(max_depth),
            graph@.dom().finite(),
            seen@.finite(),
            forall|i: int| 0 <= i < stack.len() ==> (#[trigger] stack[i]).3 <= seen@.len(),
            names_of(lines@) + render(graph@, bound, frames_of(stack@), seen@) == whole,
        decreases graph@.dom().difference(seen@).len(), stack.len(),
    {
        let ghost frames = frames_of(stack@);
        let ghost seen_before = seen@;
        let (node, prefix, last, depth) = stack.pop().unwrap();
        let ghost frame = frames.last();
        let ghost rest = frames.drop_last();
        assert(frames_of(stack@) =~= rest);
        let mut head = prefix.clone();
        head.append(if last {
            "└── "
        } else {
            "├── "
        });
        head.append(node.as_str());
        lines.push(head);
        if !seen.insert(node.clone()) {
            let mut note = prefix.clone();
            note.append("    (цикл: узел ");
            note.append(node.as_str());
            note.append(")");
            lines.push(note);
            assert(seen@ =~= seen_before);
        } else {
            proof {
                lemma_descent_decreases(graph@, seen_before, node@);
            }
            let seen_count = seen.len();
            let stop = match max_depth {
                Some(max) => depth >= max,
                None => false,
            };
            let ghost children = direct_deps(graph@, node@);
            match graph.get(&node) {
                Some(list) => {
                    if stop {
                        if list.len() > 0 {
                            let mut note = prefix.clone();
                            note.append("    ... (ограничение глубины)");
                            lines.push(note);
                        }
                    } else {
                        let mut inner = prefix.clone();
                        inner.append(if last {
                            "    "
                        } else {
                            "│   "
                        });
                        let count = list.len();
                        let mut i: usize = count;
                        while i > 0
                            invariant
                                i <= count,
                                count == list.len(),
                                names_of(list@) == children,
                                inner@ == frame.prefix + padding(frame.last),
                                frame.depth == depth,
                                depth < seen_count,
                                seen_count == seen@.len(),
                                forall|j: int|
                                    0 <= j < stack.len() ==> (#[trigger] stack[j]).3 <= seen@.len(),
                                frames_of(stack@) == rest + child_frames(children, frame).take(
                                    count - i,
                                ),
                            decreases i,
                        {
                            i -= 1;
                            let ghost prev = frames_of(stack@);
                            let child = list[i].clone();
                            stack.push((child, inner.clone(), i == count - 1, depth + 1));
                            assert(frames_of(stack@) =~= prev.push(
                                child_frames(children, frame)[count - 1 - i],
                            ));
                        }
                        assert(child_frames(children, frame).take(count as int) =~= child_frames(
                            children,
                            frame,
                        ));
                    }
                },
                None => {},
            }
        }
    }
    lines
}

} // verus!
