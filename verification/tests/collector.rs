use oxiclean::collector::{collect_entries, CollectorConfig};
use oxiclean::resolver::AliasTable;

fn cfg(root: &str, glob: Option<&str>) -> CollectorConfig {
    CollectorConfig {
        root: root.to_string(),
        entry_glob: glob.map(|g| g.to_string()),
        tsconfig_paths: AliasTable { entries: Vec::new() },
    }
}

fn strings(v: &[&str]) -> Vec<String> {
    v.iter().map(|s| s.to_string()).collect()
}

#[test]
fn test_collect_entries_from_src() {
    let candidates = strings(&[
        "/r/src/file1.js",
        "/r/src/file2.ts",
        "/r/src/components/Button.tsx",
        "/r/lib/utils.js",
    ]);
    let entries = collect_entries(&cfg("/r", None), &candidates);
    assert_eq!(entries.len(), 3);
    assert!(entries.iter().any(|e| e.ends_with("file1.js")));
    assert!(entries.iter().any(|e| e.ends_with("file2.ts")));
    assert!(entries.iter().any(|e| e.ends_with("Button.tsx")));
}

#[test]
fn test_collect_entries_with_glob() {
    let candidates = strings(&[
        "/r/src/index.js",
        "/r/src/components/Button.js",
        "/r/src/utils.js",
    ]);
    let entries = collect_entries(&cfg("/r", Some("index")), &candidates);
    assert_eq!(entries.len(), 1);
    assert!(entries[0].ends_with("index.js"));
}

#[test]
fn test_collect_entries_skips_test_files() {
    let candidates = strings(&["/r/src/file.js", "/r/src/file.test.js", "/r/src/file.spec.ts"]);
    let entries = collect_entries(&cfg("/r", None), &candidates);
    assert_eq!(entries.len(), 1);
    assert!(entries[0].ends_with("file.js"));
    assert!(!entries.iter().any(|e| e.contains(".test.")));
    assert!(!entries.iter().any(|e| e.contains(".spec.")));
}

#[test]
fn test_collect_entries_only_js_ts_files() {
    let candidates = strings(&[
        "/r/src/file.js",
        "/r/src/file.ts",
        "/r/src/file.tsx",
        "/r/src/file.jsx",
        "/r/src/file.mjs",
        "/r/src/file.cjs",
        "/r/src/file.mts",
        "/r/src/file.cts",
        "/r/src/file.json",
        "/r/src/file.txt",
    ]);
    let entries = collect_entries(&cfg("/r", None), &candidates);
    assert_eq!(entries.len(), 8);
    assert!(!entries.iter().any(|e| e.ends_with("json")));
    assert!(!entries.iter().any(|e| e.ends_with("txt")));
}

#[test]
fn test_collect_entries_empty_when_no_matches() {
    let candidates = strings(&["/r/lib/utils.js"]);
    let entries = collect_entries(&cfg("/r", None), &candidates);
    assert_eq!(entries.len(), 0);
}

#[test]
fn test_collect_entries_with_glob_pattern() {
    let candidates = strings(&[
        "/r/src/pages/home.js",
        "/r/src/pages/about.js",
        "/r/src/components/Button.js",
    ]);
    let entries = collect_entries(&cfg("/r", Some("pages")), &candidates);
    assert_eq!(entries.len(), 2);
    assert!(entries.iter().all(|e| e.contains("pages")));
}
