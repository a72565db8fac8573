use dep_visualizer::graph::GraphStore;
use dep_visualizer::registry::{DependencyRecord, RegistryError, Reply, VersionRecord};
use dep_visualizer::remote::{Action, Event, RemoteBuild, Warning};
use dep_visualizer::render::render_ascii_tree;

fn names(list: &[&str]) -> Vec<String> {
    list.iter().map(|s| s.to_string()).collect()
}

fn deps_of(g: &GraphStore, name: &str) -> Option<Vec<String>> {
    g.get(&name.to_string()).cloned()
}

fn listing(list: &[&str]) -> Reply<Vec<DependencyRecord>> {
    Reply::Answered {
        status: 200,
        body: Ok(list
            .iter()
            .map(|n| DependencyRecord { crate_id: n.to_string(), kind: None, optional: false })
            .collect()),
    }
}

fn versions(list: &[&str]) -> Reply<Vec<VersionRecord>> {
    Reply::Answered {
        status: 200,
        body: Ok(list.iter().map(|n| VersionRecord { num: n.to_string() }).collect()),
    }
}

/// What a run of a build against a pretended registry saw.
struct Run {
    requests: Vec<String>,
    warnings: Vec<Warning>,
    graph: Option<GraphStore>,
    fault: Option<(String, String, RegistryError)>,
}

/// Runs a build to its end. `deps` answers a request for the dependencies
/// of a package at a version, `latest` one for the versions of a package.
fn run(
    root: &str,
    version: &str,
    max_depth: Option<usize>,
    deps: &dyn Fn(&str, &str) -> Reply<Vec<DependencyRecord>>,
    latest: &dyn Fn(&str) -> Reply<Vec<VersionRecord>>,
) -> Run {
    let mut build = RemoteBuild::new(root, version, max_depth);
    let mut action = build.pending();
    let mut requests = Vec::new();
    let mut warnings = Vec::new();
    let mut fault = None;
    let mut rounds = 0;
    loop {
        rounds += 1;
        assert!(rounds < 10_000, "the build does not end");
        let step = match action {
            Action::FetchDependencies { package, version } => {
                requests.push(format!("deps {}@{}", package, version));
                build.step(Event::Dependencies(deps(&package, &version)))
            }
            Action::FetchVersions { package } => {
                requests.push(format!("versions {}", package));
                build.step(Event::Versions(latest(&package)))
            }
            Action::Finish => break,
            Action::Abort { fault: f } => {
                fault = Some((f.package, f.version, f.error));
                break;
            }
        };
        if let Some(w) = step.warning {
            warnings.push(w);
        }
        action = step.action;
    }
    Run { requests, warnings, graph: build.into_graph(), fault }
}

fn diamond(package: &str, _version: &str) -> Reply<Vec<DependencyRecord>> {
    match package {
        "A" => listing(&["B", "C"]),
        "B" => listing(&["D"]),
        "C" => listing(&["D"]),
        _ => listing(&[]),
    }
}

fn version_one(_package: &str) -> Reply<Vec<VersionRecord>> {
    versions(&["1.0.0", "0.9.0"])
}

#[test]
fn remote_diamond_fetches_every_listing_once() {
    let run = run("A", "0.1.0", None, &diamond, &version_one);
    assert!(run.fault.is_none());
    assert!(run.warnings.is_empty());
    assert_eq!(
        run.requests,
        vec![
            "deps A@0.1.0",
            "versions B",
            "versions C",
            "deps C@1.0.0",
            "versions D",
            "deps D@1.0.0",
            "deps B@1.0.0",
        ]
    );
    let g = run.graph.expect("a finished build has a graph");
    assert_eq!(g.len(), 4);
    assert_eq!(deps_of(&g, "A"), Some(names(&["B", "C"])));
    assert_eq!(deps_of(&g, "B"), Some(names(&["D"])));
    assert_eq!(deps_of(&g, "C"), Some(names(&["D"])));
    assert_eq!(deps_of(&g, "D"), Some(names(&[])));
}

#[test]
fn remote_cycle_terminates() {
    let deps = |package: &str, _: &str| match package {
        "A" => listing(&["B"]),
        _ => listing(&["A"]),
    };
    let run = run("A", "1.0.0", None, &deps, &version_one);
    let g = run.graph.expect("a finished build has a graph");
    assert_eq!(g.len(), 2);
    assert_eq!(deps_of(&g, "A"), Some(names(&["B"])));
    assert_eq!(deps_of(&g, "B"), Some(names(&["A"])));
    assert_eq!(
        run.requests,
        vec!["deps A@1.0.0", "versions B", "deps B@1.0.0", "versions A"]
    );
}

#[test]
fn remote_depth_bound_keeps_edges_and_skips_version_lookups() {
    let deps = |package: &str, _: &str| match package {
        "A" => listing(&["B"]),
        "B" => listing(&["C"]),
        "C" => listing(&["D"]),
        _ => listing(&[]),
    };
    let run = run("A", "1.0.0", Some(1), &deps, &version_one);
    let g = run.graph.expect("a finished build has a graph");
    assert_eq!(g.len(), 2);
    assert_eq!(deps_of(&g, "B"), Some(names(&["C"])));
    assert!(!g.contains_key(&"C".to_string()));
    assert_eq!(run.requests, vec!["deps A@1.0.0", "versions B", "deps B@1.0.0"]);
}

#[test]
fn remote_bound_zero_asks_only_for_the_root() {
    let run = run("A", "1.0.0", Some(0), &diamond, &version_one);
    let g = run.graph.expect("a finished build has a graph");
    assert_eq!(g.len(), 1);
    assert_eq!(deps_of(&g, "A"), Some(names(&["B", "C"])));
    assert_eq!(run.requests, vec!["deps A@1.0.0"]);
}

#[test]
fn failed_dependency_listing_aborts_the_build() {
    let deps = |package: &str, _: &str| match package {
        "A" => listing(&["B", "C"]),
        "C" => Reply::Answered { status: 500, body: Ok(vec![]) },
        _ => listing(&[]),
    };
    let run = run("A", "1.0.0", None, &deps, &version_one);
    assert!(run.graph.is_none());
    match run.fault {
        Some((package, version, RegistryError::Status { status })) => {
            assert_eq!(package, "C");
            assert_eq!(version, "1.0.0");
            assert_eq!(status, 500);
        }
        _ => panic!("the build did not fail as expected"),
    }
    // B was never asked for: the build stopped at C.
    assert_eq!(
        run.requests,
        vec!["deps A@1.0.0", "versions B", "versions C", "deps C@1.0.0"]
    );
}

#[test]
fn failed_root_listing_aborts_at_once() {
    let deps = |_: &str, _: &str| -> Reply<Vec<DependencyRecord>> {
        Reply::Unreachable { detail: "no route".to_string() }
    };
    let run = run("A", "1.0.0", None, &deps, &version_one);
    assert!(run.graph.is_none());
    match run.fault {
        Some((package, version, RegistryError::Request { detail })) => {
            assert_eq!(package, "A");
            assert_eq!(version, "1.0.0");
            assert_eq!(detail, "no route");
        }
        _ => panic!("the build did not fail as expected"),
    }
    assert_eq!(run.requests, vec!["deps A@1.0.0"]);
}

#[test]
fn malformed_dependency_payload_aborts_the_build() {
    let deps = |_: &str, _: &str| -> Reply<Vec<DependencyRecord>> {
        Reply::Answered { status: 200, body: Err("expected value".to_string()) }
    };
    let run = run("A", "1.0.0", None, &deps, &version_one);
    assert!(run.graph.is_none());
    match run.fault {
        Some((_, _, RegistryError::Payload { detail })) => assert_eq!(detail, "expected value"),
        _ => panic!("the build did not fail as expected"),
    }
}

#[test]
fn failed_version_lookup_skips_only_that_dependency() {
    let deps = |package: &str, _: &str| match package {
        "A" => listing(&["B", "C", "D"]),
        "B" => listing(&["E"]),
        "C" => listing(&["F"]),
        "D" => listing(&["G"]),
        _ => listing(&[]),
    };
    let latest = |package: &str| match package {
        "C" => Reply::Answered { status: 404, body: Ok(vec![]) },
        _ => versions(&["3.0.0"]),
    };
    let run = run("A", "1.0.0", None, &deps, &latest);
    assert!(run.fault.is_none());
    assert_eq!(run.warnings.len(), 1);
    assert_eq!(run.warnings[0].package, "C");
    match &run.warnings[0].error {
        RegistryError::Status { status } => assert_eq!(*status, 404),
        _ => panic!("wrong warning"),
    }
    let g = run.graph.expect("a finished build has a graph");
    assert_eq!(deps_of(&g, "A"), Some(names(&["B", "C", "D"])));
    assert!(!g.contains_key(&"C".to_string()));
    assert!(!g.contains_key(&"F".to_string()));
    assert_eq!(deps_of(&g, "B"), Some(names(&["E"])));
    assert_eq!(deps_of(&g, "D"), Some(names(&["G"])));
    assert_eq!(deps_of(&g, "E"), Some(names(&[])));
    assert_eq!(deps_of(&g, "G"), Some(names(&[])));
    assert_eq!(g.len(), 5);
    let lines = render_ascii_tree(&g, "A", None);
    assert_eq!(
        lines,
        vec![
            "└── A",
            "    ├── B",
            "    │   └── E",
            "    ├── C",
            "    └── D",
            "        └── G",
        ]
    );
}

#[test]
fn package_without_versions_is_a_warning() {
    let deps = |package: &str, _: &str| match package {
        "A" => listing(&["ghost", "B"]),
        _ => listing(&[]),
    };
    let latest = |package: &str| match package {
        "ghost" => versions(&[]),
        _ => versions(&["1.0.0"]),
    };
    let run = run("A", "1.0.0", None, &deps, &latest);
    assert_eq!(run.warnings.len(), 1);
    assert_eq!(run.warnings[0].package, "ghost");
    assert!(matches!(run.warnings[0].error, RegistryError::NotFound));
    let g = run.graph.expect("a finished build has a graph");
    assert_eq!(g.len(), 2);
    assert_eq!(deps_of(&g, "A"), Some(names(&["ghost", "B"])));
}

#[test]
fn unreachable_version_listing_is_a_warning() {
    let deps = |package: &str, _: &str| match package {
        "A" => listing(&["B"]),
        _ => listing(&[]),
    };
    let latest = |_: &str| -> Reply<Vec<VersionRecord>> {
        Reply::Unreachable { detail: "dns".to_string() }
    };
    let run = run("A", "1.0.0", None, &deps, &latest);
    assert_eq!(run.warnings.len(), 1);
    match &run.warnings[0].error {
        RegistryError::Request { detail } => assert_eq!(detail, "dns"),
        _ => panic!("wrong warning"),
    }
    let g = run.graph.expect("a finished build has a graph");
    assert_eq!(g.len(), 1);
}

#[test]
fn a_failed_version_lookup_is_repeated_for_the_next_parent() {
    // Only a successful lookup is remembered.
    let deps = |package: &str, _: &str| match package {
        "A" => listing(&["X", "B"]),
        "B" => listing(&["X"]),
        _ => listing(&[]),
    };
    let latest = |package: &str| match package {
        "X" => versions(&[]),
        _ => versions(&["1.0.0"]),
    };
    let run = run("A", "1.0.0", None, &deps, &latest);
    assert_eq!(
        run.requests,
        vec!["deps A@1.0.0", "versions X", "versions B", "deps B@1.0.0", "versions X"]
    );
    assert_eq!(run.warnings.len(), 2);
}

#[test]
fn latest_version_is_looked_up_once_per_package() {
    let deps = |package: &str, _: &str| match package {
        "A" => listing(&["X", "B", "X"]),
        "B" => listing(&["X", "C"]),
        "C" => listing(&["X"]),
        _ => listing(&[]),
    };
    let run = run("A", "1.0.0", None, &deps, &version_one);
    let asked = run.requests.iter().filter(|r| *r == "versions X").count();
    assert_eq!(asked, 1);
    let listed = run.requests.iter().filter(|r| *r == "deps X@1.0.0").count();
    assert_eq!(listed, 1);
    let g = run.graph.expect("a finished build has a graph");
    assert_eq!(g.len(), 4);
    assert_eq!(deps_of(&g, "A"), Some(names(&["X", "B", "X"])));
}

#[test]
fn dependencies_are_expanded_at_their_latest_version() {
    let deps = |package: &str, version: &str| match (package, version) {
        ("A", "0.1.0") => listing(&["B"]),
        ("B", "2.0.0") => listing(&["new"]),
        ("B", _) => listing(&["old"]),
        _ => listing(&[]),
    };
    let latest = |package: &str| match package {
        "B" => versions(&["2.0.0", "1.0.0"]),
        _ => versions(&["1.0.0"]),
    };
    let run = run("A", "0.1.0", None, &deps, &latest);
    let g = run.graph.expect("a finished build has a graph");
    assert_eq!(deps_of(&g, "B"), Some(names(&["new"])));
    assert!(run.requests.contains(&"deps B@2.0.0".to_string()));
}

#[test]
fn dev_dependencies_are_not_followed() {
    let deps = |package: &str, _: &str| match package {
        "A" => Reply::Answered {
            status: 200,
            body: Ok(vec![
                DependencyRecord {
                    crate_id: "B".to_string(),
                    kind: Some("normal".to_string()),
                    optional: false,
                },
                DependencyRecord {
                    crate_id: "T".to_string(),
                    kind: Some("dev".to_string()),
                    optional: false,
                },
            ]),
        },
        _ => listing(&[]),
    };
    let run = run("A", "1.0.0", None, &deps, &version_one);
    let g = run.graph.expect("a finished build has a graph");
    assert_eq!(deps_of(&g, "A"), Some(names(&["B"])));
    assert!(!g.contains_key(&"T".to_string()));
}

#[test]
fn an_event_that_answers_nothing_changes_nothing() {
    let mut build = RemoteBuild::new("A", "1.0.0", None);
    let step = build.step(Event::Versions(versions(&["9.9.9"])));
    assert!(step.warning.is_none());
    match step.action {
        Action::FetchDependencies { package, version } => {
            assert_eq!(package, "A");
            assert_eq!(version, "1.0.0");
        }
        _ => panic!("the pending action changed"),
    }
    let step = build.step(Event::Dependencies(listing(&["B"])));
    match step.action {
        Action::FetchVersions { package } => assert_eq!(package, "B"),
        _ => panic!("wrong action"),
    }
    let step = build.step(Event::Dependencies(listing(&["Z"])));
    match step.action {
        Action::FetchVersions { package } => assert_eq!(package, "B"),
        _ => panic!("the pending action changed"),
    }
    assert!(build.into_graph().is_none());
}

#[test]
fn a_failed_build_stays_failed() {
    let mut build = RemoteBuild::new("A", "1.0.0", None);
    let step = build.step(Event::Dependencies(Reply::Answered { status: 502, body: Ok(vec![]) }));
    assert!(matches!(step.action, Action::Abort { .. }));
    let step = build.step(Event::Dependencies(listing(&[])));
    match step.action {
        Action::Abort { fault } => {
            assert_eq!(fault.package, "A");
            assert!(matches!(fault.error, RegistryError::Status { status: 502 }));
        }
        _ => panic!("the build went on"),
    }
    match build.pending() {
        Action::Abort { fault } => assert_eq!(fault.version, "1.0.0"),
        _ => panic!("the build went on"),
    }
    assert!(build.into_graph().is_none());
}

#[test]
fn a_finished_build_stays_finished() {
    let mut build = RemoteBuild::new("A", "1.0.0", None);
    let step = build.step(Event::Dependencies(listing(&[])));
    assert!(matches!(step.action, Action::Finish));
    let step = build.step(Event::Versions(versions(&["1.0.0"])));
    assert!(matches!(step.action, Action::Finish));
    assert!(matches!(build.pending(), Action::Finish));
    let g = build.into_graph().expect("a finished build has a graph");
    assert_eq!(g.len(), 1);
}

/// Runs a remote build against a registry that serves the adjacency list
/// `list` at every version, and a build from the same list.
fn both_builds(list: &[(&str, &[&str])], root: &str, max_depth: Option<usize>) -> (GraphStore, GraphStore) {
    let mut raw = GraphStore::new();
    for (name, deps) in list {
        raw.insert(name.to_string(), names(deps));
    }
    let deps = |package: &str, _: &str| match raw.get(&package.to_string()) {
        Some(found) => {
            let found: Vec<&str> = found.iter().map(|s| s.as_str()).collect();
            listing(&found)
        }
        None => listing(&[]),
    };
    let run = run(root, "1.0.0", max_depth, &deps, &version_one);
    assert!(run.warnings.is_empty());
    let remote = run.graph.expect("a finished build has a graph");
    let local = dep_visualizer::builder::build_test_graph(root, &raw, max_depth);
    (remote, local)
}

#[test]
fn remote_build_gives_the_graph_of_a_build_from_the_same_list() {
    let lists: Vec<Vec<(&str, &[&str])>> = vec![
        vec![("A", &["B", "C"]), ("B", &["D"]), ("C", &["D"]), ("D", &[])],
        vec![("A", &["B"]), ("B", &["A"])],
        vec![("A", &["C", "B"]), ("B", &["C"]), ("C", &["D"]), ("D", &["E"])],
        vec![("A", &["A", "B", "B"]), ("B", &["C", "A"]), ("C", &["B", "D", "E"]), ("E", &["A"])],
        vec![("X", &["Y"])],
    ];
    let all = ["A", "B", "C", "D", "E", "X", "Y"];
    for list in &lists {
        for bound in [None, Some(0), Some(1), Some(2), Some(3), Some(7)] {
            let (remote, local) = both_builds(list, "A", bound);
            assert_eq!(remote.len(), local.len());
            for name in all {
                assert_eq!(deps_of(&remote, name), deps_of(&local, name));
            }
            assert_eq!(
                render_ascii_tree(&remote, "A", bound),
                render_ascii_tree(&local, "A", bound)
            );
        }
    }
}
