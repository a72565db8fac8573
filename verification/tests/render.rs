use dep_visualizer::builder::build_test_graph;
use dep_visualizer::graph::GraphStore;
use dep_visualizer::render::render_ascii_tree;

fn names(list: &[&str]) -> Vec<String> {
    list.iter().map(|s| s.to_string()).collect()
}

fn graph_of(entries: &[(&str, &[&str])]) -> GraphStore {
    let mut g = GraphStore::new();
    for (name, deps) in entries {
        g.insert(name.to_string(), names(deps));
    }
    g
}

#[test]
fn cycle_is_printed_once_more_and_not_descended() {
    let g = graph_of(&[("A", &["B"]), ("B", &["A"])]);
    let lines = render_ascii_tree(&g, "A", None);
    assert_eq!(
        lines,
        vec![
            "└── A",
            "    └── B",
            "        └── A",
            "            (цикл: узел A)",
        ]
    );
}

#[test]
fn bound_zero_shows_root_and_one_placeholder() {
    let g = graph_of(&[("A", &["B", "C"])]);
    let lines = render_ascii_tree(&g, "A", Some(0));
    assert_eq!(lines, vec!["└── A", "    ... (ограничение глубины)"]);
}

#[test]
fn bound_zero_without_children_shows_no_placeholder() {
    let g = graph_of(&[("A", &[])]);
    assert_eq!(render_ascii_tree(&g, "A", Some(0)), vec!["└── A"]);
    let empty = GraphStore::new();
    assert_eq!(render_ascii_tree(&empty, "A", Some(0)), vec!["└── A"]);
    assert_eq!(render_ascii_tree(&empty, "A", None), vec!["└── A"]);
}

#[test]
fn connectors_and_indentation_follow_the_branches() {
    let g = graph_of(&[
        ("root", &["a", "b", "c"]),
        ("a", &["a1", "a2"]),
        ("b", &[]),
        ("c", &["c1"]),
        ("a1", &[]),
        ("a2", &["a21"]),
    ]);
    let lines = render_ascii_tree(&g, "root", None);
    assert_eq!(
        lines,
        vec![
            "└── root",
            "    ├── a",
            "    │   ├── a1",
            "    │   └── a2",
            "    │       └── a21",
            "    ├── b",
            "    └── c",
            "        └── c1",
        ]
    );
}

#[test]
fn second_occurrence_in_a_diamond_is_marked() {
    let g = graph_of(&[("A", &["B", "C"]), ("B", &["D"]), ("C", &["D"]), ("D", &["E"])]);
    let lines = render_ascii_tree(&g, "A", None);
    assert_eq!(
        lines,
        vec![
            "└── A",
            "    ├── B",
            "    │   └── D",
            "    │       └── E",
            "    └── C",
            "        └── D",
            "            (цикл: узел D)",
        ]
    );
}

#[test]
fn annotations_are_indented_from_the_prefix_of_their_node() {
    // The note under a node starts with the node's own indentation and four
    // blanks, whether or not the node has siblings after it.
    let g = graph_of(&[("A", &["B", "C"]), ("B", &["A"]), ("C", &[])]);
    let lines = render_ascii_tree(&g, "A", None);
    assert_eq!(
        lines,
        vec![
            "└── A",
            "    ├── B",
            "    │   └── A",
            "    │       (цикл: узел A)",
            "    └── C",
        ]
    );
}

#[test]
fn self_loop_is_marked_under_the_node() {
    let g = graph_of(&[("A", &["A", "B"])]);
    let lines = render_ascii_tree(&g, "A", None);
    assert_eq!(
        lines,
        vec!["└── A", "    ├── A", "        (цикл: узел A)", "    └── B"]
    );
}

#[test]
fn truncation_applies_at_the_bound_only_where_children_exist() {
    let g = graph_of(&[("A", &["B", "C"]), ("B", &["D"]), ("C", &[]), ("D", &["E"])]);
    let lines = render_ascii_tree(&g, "A", Some(1));
    assert_eq!(
        lines,
        vec![
            "└── A",
            "    ├── B",
            "        ... (ограничение глубины)",
            "    └── C",
        ]
    );
}

#[test]
fn render_bound_is_independent_of_the_build_bound() {
    let raw = graph_of(&[("A", &["B"]), ("B", &["C"]), ("C", &["D"])]);
    let built = build_test_graph("A", &raw, Some(1));
    // B's edge to C was kept by the build, and C has no entry.
    let lines = render_ascii_tree(&built, "A", None);
    assert_eq!(lines, vec!["└── A", "    └── B", "        └── C"]);
    let lines = render_ascii_tree(&built, "A", Some(1));
    assert_eq!(lines, vec!["└── A", "    └── B", "        ... (ограничение глубины)"]);
    let full = build_test_graph("A", &raw, None);
    let lines = render_ascii_tree(&full, "A", Some(2));
    assert_eq!(
        lines,
        vec!["└── A", "    └── B", "        └── C", "            ... (ограничение глубины)"]
    );
}

#[test]
fn a_seen_node_at_the_bound_is_marked_as_a_cycle() {
    let g = graph_of(&[("A", &["B", "C"]), ("B", &["X"]), ("C", &["B"]), ("X", &[])]);
    let lines = render_ascii_tree(&g, "A", Some(2));
    assert_eq!(
        lines,
        vec![
            "└── A",
            "    ├── B",
            "    │   └── X",
            "    └── C",
            "        └── B",
            "            (цикл: узел B)",
        ]
    );
}

#[test]
fn children_of_a_truncated_node_still_render_elsewhere() {
    let g = graph_of(&[("A", &["B", "C"]), ("B", &["K"]), ("K", &["C"]), ("C", &["Z"])]);
    let lines = render_ascii_tree(&g, "A", Some(2));
    assert_eq!(
        lines,
        vec![
            "└── A",
            "    ├── B",
            "    │   └── K",
            "    │       ... (ограничение глубины)",
            "    └── C",
            "        └── Z",
        ]
    );
}
