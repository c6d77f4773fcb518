use oxiclean::constants::{index_files, js_ts_extensions, resolve_extensions};

#[test]
fn test_js_ts_extensions_includes_all_variants() {
    let exts = js_ts_extensions();
    assert!(exts.contains(&"ts".to_string()));
    assert!(exts.contains(&"tsx".to_string()));
    assert!(exts.contains(&"mts".to_string()));
    assert!(exts.contains(&"cts".to_string()));
    assert!(exts.contains(&"js".to_string()));
    assert!(exts.contains(&"jsx".to_string()));
    assert!(exts.contains(&"mjs".to_string()));
    assert!(exts.contains(&"cjs".to_string()));
    assert_eq!(exts.len(), 8);
}

#[test]
fn test_resolve_extensions_matches_js_ts_extensions() {
    let resolve = resolve_extensions();
    let all = js_ts_extensions();
    assert_eq!(resolve.len(), all.len());
    for ext in &resolve {
        assert!(
            all.contains(ext),
            "RESOLVE_EXTENSIONS contains '{}' which is not in JS_TS_EXTENSIONS",
            ext
        );
    }
}

#[test]
fn test_index_files_uses_all_extensions() {
    let index = index_files();
    let all = js_ts_extensions();
    assert_eq!(index.len(), all.len());
    for ext in &all {
        let expected = format!("index.{}", ext);
        assert!(index.contains(&expected), "INDEX_FILES missing '{}'", expected);
    }
}

#[test]
fn test_typescript_module_extensions_included() {
    let all = js_ts_extensions();
    let resolve = resolve_extensions();
    let index = index_files();
    assert!(all.contains(&"mts".to_string()));
    assert!(all.contains(&"cts".to_string()));
    assert!(resolve.contains(&"mts".to_string()));
    assert!(resolve.contains(&"cts".to_string()));
    assert!(index.contains(&"index.mts".to_string()));
    assert!(index.contains(&"index.cts".to_string()));
}
