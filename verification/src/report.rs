//! The report of a run: a header line and the tree under it.

use crate::adjacency::{graph_of, is_malformed, load_test_graph, split_lines, trim, FormatError};
use crate::builder::build_test_graph;
use crate::graph::GraphStore;
use crate::render::{render_ascii_tree, tree_lines};
use crate::traversal::{bound_of, built_graph};
use vstd::prelude::*;

verus! {

/// Where a run takes its graph from.
#[derive(Clone, Copy, Debug, PartialEq, Eq)]
pub enum Mode {
    /// From an adjacency list in a text file.
    Test,
    /// From the registry.
    Remote,
}

/// The mode that `selector` chooses: `test` chooses the adjacency list, any
/// other text the registry.
pub fn mode_of(selector: &str) -> (mode: Mode)
    ensures
        mode is Test <==> selector@ == "test"@,
{
    if selector.to_string() == "test".to_string() {
        Mode::Test
    } else {
        Mode::Remote
    }
}

/// The header of a report on `name` at `version`.
pub open spec fn header(name: Seq<char>, version: Seq<char>) -> Seq<char> {
    "Граф зависимостей для "@ + name + " v"@ + version + ":"@
}

/// The header line of a report on `name` at `version`.
pub fn header_line(name: &str, version: &str) -> (line: String)
    ensures
        line@ == header(name@, version@),
{
    let mut line = "Граф зависимостей для ".to_string();
    line.append(name);
    line.append(" v");
    line.append(version);
    line.append(":");
    line
}

/// The lines of the report on `name` at `version`: the header, then the tree
/// of `graph` under `name`.
pub fn report_lines(graph: &GraphStore, name: &str, version: &str, max_depth: Option<usize>) -> (lines:
    Vec<String>)
    ensures
        lines.deep_view() == seq![header(name@, version@)] + tree_lines(
            graph@,
            name@,
            bound_of(max_depth),
        ),
{
    let tree = render_ascii_tree(graph, name, max_depth);
    let mut lines: Vec<String> = Vec::new();
    lines.push(header_line(name, version));
    let mut i: usize = 0;
    while i < tree.len()
        invariant
            i <= tree.len(),
            lines.deep_view() == seq![header(name@, version@)] + tree.deep_view().take(i as int),
        decreases tree.len() - i,
    {
        let ghost before = lines.deep_view();
        lines.push(tree[i].clone());
        assert(lines.deep_view() =~= before.push(tree.deep_view()[i as int]));
        i += 1;
    }
    lines
}

/// The report of a run in test mode on the adjacency list `text`: the graph
/// built from `name` with the depth bound, rendered under the same bound.
///
/// A line of `text` that holds something but no colon gives the error of
/// [`load_test_graph`], and no report.
pub fn test_report(name: &str, version: &str, text: &str, max_depth: Option<usize>) -> (res: Result<
    Vec<String>,
    FormatError,
>)
    ensures
        match res {
            Ok(lines) => {
                &&& forall|i: int|
                    0 <= i < split_lines(text@).len() ==> !is_malformed(
                        #[trigger] split_lines(text@)[i],
                    )
                &&& lines.deep_view() == seq![header(name@, version@)] + tree_lines(
                    built_graph(graph_of(split_lines(text@)), name@, bound_of(max_depth)),
                    name@,
                    bound_of(max_depth),
                )
            },
            Err(error) => {
                &&& 1 <= error.line <= split_lines(text@).len()
                &&& is_malformed(split_lines(text@)[error.line - 1])
                &&& forall|i: int|
                    0 <= i < error.line - 1 ==> !is_malformed(#[trigger] split_lines(text@)[i])
                &&& error.content@ == trim(split_lines(text@)[error.line - 1])
            },
        },
{
    match load_test_graph(text) {
        Err(error) => Err(error),
        Ok(raw) => {
            let graph = build_test_graph(name, &raw, max_depth);
            Ok(report_lines(&graph, name, version, max_depth))
        },
    }
}

} // verus!
