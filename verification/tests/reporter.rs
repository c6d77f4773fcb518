use oxiclean::reporter::{
    make_relative, print_no_bloat_message, print_warnings_tree, render_warnings_tree,
    usize_to_string,
};
use oxiclean::bloat::{Config, Warning};
use oxiclean::resolver::AliasTable;

#[test]
fn test_make_relative_same_dir() {
    let result = make_relative("/project/src/file.ts", "/project/src");
    assert_eq!(result, Some("file.ts".to_string()));
}

#[test]
fn test_make_relative_child_dir() {
    let result = make_relative("/project/src/components/Button.tsx", "/project/src");
    assert_eq!(result, Some("components/Button.tsx".to_string()));
}

#[test]
fn test_make_relative_parent_dir() {
    let result = make_relative("/project/src/file.ts", "/project/src/components");
    assert_eq!(result, Some("../file.ts".to_string()));
}

#[test]
fn test_make_relative_sibling_dir() {
    let result = make_relative("/project/apps/web/index.ts", "/project/apps/api");
    assert_eq!(result, Some("../web/index.ts".to_string()));
}

#[test]
fn test_make_relative_same_path() {
    let result = make_relative("/project/src", "/project/src");
    assert_eq!(result, Some(".".to_string()));
}

#[test]
fn test_make_relative_multiple_levels_up() {
    let result = make_relative("/project/file.ts", "/project/apps/web/src");
    assert_eq!(result, Some("../../../file.ts".to_string()));
}

#[test]
fn test_usize_to_string_renders_decimal() {
    assert_eq!(usize_to_string(0), "0");
    assert_eq!(usize_to_string(7), "7");
    assert_eq!(usize_to_string(42), "42");
    assert_eq!(usize_to_string(205), "205");
}

#[test]
fn test_render_warnings_tree_sorts_descending() {
    let warnings = vec![
        Warning {
            import_statement: "import './a'".to_string(),
            from_file: "src/index.js".to_string(),
            reachable_unique_modules: 150,
            resolved_path: Some("src/a.js".to_string()),
        },
        Warning {
            import_statement: "import './b'".to_string(),
            from_file: "src/index.js".to_string(),
            reachable_unique_modules: 260,
            resolved_path: Some("src/b.js".to_string()),
        },
    ];
    let report = render_warnings_tree(&warnings, 100);
    // One group, larger counts first within it, the last line closing
    // the branch.
    let b_at = report.find("├──  import 'src/b.js' (260 modules)").unwrap();
    let a_at = report.find("└──  import 'src/a.js' (150 modules)").unwrap();
    assert!(b_at < a_at, "larger counts come first");
    assert_eq!(report.matches("src/index.js\n").count(), 1);
    assert!(report.contains("threshold: 100"));
    assert!(report.contains("worst 260"));
}

#[test]
fn test_render_warnings_tree_groups_by_worst_file() {
    let warnings = vec![
        Warning {
            import_statement: "Entry file (entire graph)".to_string(),
            from_file: "src/a.js".to_string(),
            reachable_unique_modules: 50,
            resolved_path: None,
        },
        Warning {
            import_statement: "import './y'".to_string(),
            from_file: "src/a.js".to_string(),
            reachable_unique_modules: 10,
            resolved_path: Some("src/y.js".to_string()),
        },
        Warning {
            import_statement: "import './x'".to_string(),
            from_file: "src/b.js".to_string(),
            reachable_unique_modules: 99,
            resolved_path: Some("src/x.js".to_string()),
        },
    ];
    let report = render_warnings_tree(&warnings, 5);
    // The file with the worse warning leads; the whole-graph count sits
    // on its group's header, not among the lines.
    let b_group = report.find("src/b.js\n└──  import 'src/x.js' (99 modules)").unwrap();
    let a_group = report.find("src/a.js (50 modules)\n└──  import 'src/y.js' (10 modules)").unwrap();
    assert!(b_group < a_group, "groups come in descending worst count");
    assert!(!report.contains("──  Entry file"), "the whole-graph warning is no tree line");
    assert!(report.contains("Total: 3 violations, worst 99 modules."));
}

#[test]
fn test_print_no_bloat_message_writes_threshold() {
    let mut out: Vec<u8> = Vec::new();
    assert!(print_no_bloat_message(&mut out, 200));
    let text = String::from_utf8(out).unwrap();
    assert_eq!(text, "No bloat detected. Threshold: 200\n");
}

#[test]
fn test_print_warnings_tree_writes_report() {
    let warnings = vec![Warning {
        import_statement: "import './big'".to_string(),
        from_file: "src/index.js".to_string(),
        reachable_unique_modules: 321,
        resolved_path: Some("src/big.js".to_string()),
    }];
    let cfg = Config {
        root: Some("/r".to_string()),
        threshold: 300,
        entry_glob: None,
        tsconfig_paths: AliasTable { entries: Vec::new() },
    };
    let mut out: Vec<u8> = Vec::new();
    assert!(print_warnings_tree(&mut out, &warnings, &cfg, 300));
    let text = String::from_utf8(out).unwrap();
    assert!(text.contains("Import bloat detected (threshold: 300 modules)\n\n"));
    assert!(text.contains("src/index.js\n└──  import 'src/big.js' (321 modules)\n\n"));
    assert!(text.contains("Total: 1 violations, worst 321 modules. Top offenders:\n"));
    assert!(text.contains("src/index.js: import './big' (321 modules)\n"));
}
