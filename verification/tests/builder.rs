use dep_visualizer::builder::build_test_graph;
use dep_visualizer::graph::GraphStore;

fn names(list: &[&str]) -> Vec<String> {
    list.iter().map(|s| s.to_string()).collect()
}

fn graph_of(entries: &[(&str, &[&str])]) -> GraphStore {
    let mut g = GraphStore::new();
    for (name, deps) in entries {
        g.insert(name.to_string(), names(deps));
    }
    g
}

fn deps_of(g: &GraphStore, name: &str) -> Option<Vec<String>> {
    g.get(&name.to_string()).cloned()
}

#[test]
fn diamond_is_visited_once() {
    let raw = graph_of(&[("A", &["B", "C"]), ("B", &["D"]), ("C", &["D"]), ("D", &[])]);
    let g = build_test_graph("A", &raw, None);
    assert_eq!(g.len(), 4);
    assert_eq!(deps_of(&g, "A"), Some(names(&["B", "C"])));
    assert_eq!(deps_of(&g, "B"), Some(names(&["D"])));
    assert_eq!(deps_of(&g, "C"), Some(names(&["D"])));
    assert_eq!(deps_of(&g, "D"), Some(names(&[])));
}

#[test]
fn depth_bound_stops_expansion_but_keeps_edges() {
    let raw = graph_of(&[("A", &["B"]), ("B", &["C"]), ("C", &["D"])]);
    let g = build_test_graph("A", &raw, Some(1));
    assert_eq!(g.len(), 2);
    assert_eq!(deps_of(&g, "A"), Some(names(&["B"])));
    assert_eq!(deps_of(&g, "B"), Some(names(&["C"])));
    assert!(!g.contains_key(&"C".to_string()));
    assert!(!g.contains_key(&"D".to_string()));
}

#[test]
fn cycle_terminates_with_both_entries() {
    let raw = graph_of(&[("A", &["B"]), ("B", &["A"])]);
    let g = build_test_graph("A", &raw, None);
    assert_eq!(g.len(), 2);
    assert_eq!(deps_of(&g, "A"), Some(names(&["B"])));
    assert_eq!(deps_of(&g, "B"), Some(names(&["A"])));
}

#[test]
fn self_dependency_terminates() {
    let raw = graph_of(&[("A", &["A"])]);
    let g = build_test_graph("A", &raw, None);
    assert_eq!(g.len(), 1);
    assert_eq!(deps_of(&g, "A"), Some(names(&["A"])));
}

#[test]
fn name_without_record_gets_an_empty_list() {
    let raw = graph_of(&[("A", &["B", "C"])]);
    let g = build_test_graph("A", &raw, None);
    assert_eq!(g.len(), 3);
    assert_eq!(deps_of(&g, "B"), Some(names(&[])));
    assert_eq!(deps_of(&g, "C"), Some(names(&[])));
}

#[test]
fn start_without_record_is_the_only_entry() {
    let raw = graph_of(&[("A", &["B"])]);
    let g = build_test_graph("Z", &raw, None);
    assert_eq!(g.len(), 1);
    assert_eq!(deps_of(&g, "Z"), Some(names(&[])));
}

#[test]
fn bound_zero_records_the_root_with_its_full_list() {
    let raw = graph_of(&[("A", &["B", "C"]), ("B", &["D"])]);
    let g = build_test_graph("A", &raw, Some(0));
    assert_eq!(g.len(), 1);
    assert_eq!(deps_of(&g, "A"), Some(names(&["B", "C"])));
}

#[test]
fn unreachable_records_are_left_out() {
    let raw = graph_of(&[("A", &["B"]), ("B", &[]), ("X", &["Y"])]);
    let g = build_test_graph("A", &raw, None);
    assert_eq!(g.len(), 2);
    assert!(!g.contains_key(&"X".to_string()));
    assert!(!g.contains_key(&"Y".to_string()));
}

#[test]
fn a_name_first_met_at_the_bound_is_not_expanded_later() {
    // The last dependency is taken from the work stack first: B is expanded
    // before C, so C is first met under B, at the bound.
    let raw = graph_of(&[("A", &["C", "B"]), ("B", &["C"]), ("C", &["D"]), ("D", &["E"])]);
    let g = build_test_graph("A", &raw, Some(2));
    assert_eq!(g.len(), 3);
    assert_eq!(deps_of(&g, "C"), Some(names(&["D"])));
    assert!(!g.contains_key(&"D".to_string()));
    let unbounded = build_test_graph("A", &raw, None);
    assert_eq!(unbounded.len(), 5);
}

#[test]
fn large_bound_equals_no_bound() {
    let raw = graph_of(&[("A", &["B"]), ("B", &["C"]), ("C", &["D"])]);
    let g = build_test_graph("A", &raw, Some(10));
    assert_eq!(g.len(), 4);
    assert_eq!(deps_of(&g, "D"), Some(names(&[])));
}

#[test]
fn graph_store_replaces_the_list_of_a_present_name() {
    let mut g = GraphStore::new();
    assert_eq!(g.len(), 0);
    g.insert("A".to_string(), names(&["B"]));
    g.insert("C".to_string(), names(&[]));
    g.insert("A".to_string(), names(&["D", "E"]));
    assert_eq!(g.len(), 2);
    assert_eq!(deps_of(&g, "A"), Some(names(&["D", "E"])));
    assert_eq!(deps_of(&g, "C"), Some(names(&[])));
    assert_eq!(deps_of(&g, "B"), None);
    assert!(g.contains_key(&"C".to_string()));
    assert!(!g.contains_key(&"D".to_string()));
}
