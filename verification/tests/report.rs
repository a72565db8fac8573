use dep_visualizer::graph::GraphStore;
use dep_visualizer::report::{header_line, mode_of, report_lines, test_report, Mode};

#[test]
fn header_names_package_and_version() {
    assert_eq!(header_line("serde", "1.0.0"), "Граф зависимостей для serde v1.0.0:");
    assert_eq!(header_line("", ""), "Граф зависимостей для  v:");
}

#[test]
fn only_the_word_test_selects_test_mode() {
    assert_eq!(mode_of("test"), Mode::Test);
    assert_eq!(mode_of("remote"), Mode::Remote);
    assert_eq!(mode_of("Test"), Mode::Remote);
    assert_eq!(mode_of("test "), Mode::Remote);
    assert_eq!(mode_of(""), Mode::Remote);
}

#[test]
fn report_is_the_header_and_the_tree() {
    let mut g = GraphStore::new();
    g.insert("A".to_string(), vec!["B".to_string(), "C".to_string()]);
    let lines = report_lines(&g, "A", "0.3.1", None);
    assert_eq!(
        lines,
        vec!["Граф зависимостей для A v0.3.1:", "└── A", "    ├── B", "    └── C"]
    );
    let lines = report_lines(&g, "A", "0.3.1", Some(0));
    assert_eq!(
        lines,
        vec!["Граф зависимостей для A v0.3.1:", "└── A", "    ... (ограничение глубины)"]
    );
}

#[test]
fn test_mode_report_builds_and_renders_under_one_bound() {
    let text = "A: B C\nB: D\nC: D\nD: E\n";
    let lines = match test_report("A", "1.0", text, None) {
        Ok(lines) => lines,
        Err(_) => panic!("refused"),
    };
    // C is the last dependency of A, so the build expands it first; the
    // tree still shows B first.
    assert_eq!(
        lines,
        vec![
            "Граф зависимостей для A v1.0:",
            "└── A",
            "    ├── B",
            "    │   └── D",
            "    │       └── E",
            "    └── C",
            "        └── D",
            "            (цикл: узел D)",
        ]
    );
    let lines = match test_report("A", "1.0", text, Some(1)) {
        Ok(lines) => lines,
        Err(_) => panic!("refused"),
    };
    assert_eq!(
        lines,
        vec![
            "Граф зависимостей для A v1.0:",
            "└── A",
            "    ├── B",
            "        ... (ограничение глубины)",
            "    └── C",
            "        ... (ограничение глубины)",
        ]
    );
}

#[test]
fn test_mode_report_of_a_bad_list_is_the_format_error() {
    match test_report("A", "1.0", "A: B\nbadline\n", None) {
        Ok(_) => panic!("accepted"),
        Err(e) => {
            assert_eq!(e.line, 2);
            assert_eq!(e.content, "badline");
        }
    }
}

#[test]
fn test_mode_report_of_an_unknown_root_is_its_line() {
    match test_report("Z", "2", "A: B\n", None) {
        Ok(lines) => assert_eq!(lines, vec!["Граф зависимостей для Z v2:", "└── Z"]),
        Err(_) => panic!("refused"),
    }
}
