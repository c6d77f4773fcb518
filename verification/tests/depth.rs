use oxiclean::ast::Stmt;
use oxiclean::caches::{DepthCache, ImportCache, ResolveCache};
use oxiclean::depth::{compute_depth, compute_import_depths};
use oxiclean::fsmodel::Fs;
use oxiclean::parser::SourceStore;
use oxiclean::resolver::AliasTable;

fn workspace(modules: &[(&str, &[&str])]) -> (Fs, SourceStore) {
    let mut fs = Fs::new();
    let mut store = SourceStore::new();
    let mut dirs: Vec<String> = Vec::new();
    for (file, imports) in modules {
        fs.add_file(file.to_string());
        let program: Vec<Stmt> = imports
            .iter()
            .map(|req| Stmt::Import { type_only: false, bindings: None, source: req.to_string() })
            .collect();
        store.add_module(file.to_string(), program);
        let mut p = *file;
        while let Some(idx) = p.rfind('/') {
            let d = if idx == 0 { "/" } else { &p[..idx] };
            if !dirs.contains(&d.to_string()) {
                dirs.push(d.to_string());
            }
            if idx == 0 {
                break;
            }
            p = d;
        }
    }
    for d in dirs {
        fs.add_dir(d);
    }
    (fs, store)
}

fn depth_of(fs: &Fs, store: &SourceStore, start: &str) -> usize {
    let aliases = AliasTable { entries: Vec::new() };
    let mut ic = ImportCache::new();
    let mut rc = ResolveCache::new();
    let mut dc = DepthCache::new();
    compute_depth(fs, "/r", &aliases, store, start, &mut ic, &mut rc, &mut dc)
}

#[test]
fn test_compute_depth_no_imports() {
    let (fs, store) = workspace(&[("/r/src/file.js", &[])]);
    assert_eq!(depth_of(&fs, &store, "/r/src/file.js"), 0);
}

#[test]
fn test_compute_depth_simple() {
    let (fs, store) = workspace(&[("/r/src/file.js", &["./a"]), ("/r/src/a.js", &[])]);
    assert_eq!(depth_of(&fs, &store, "/r/src/file.js"), 1);
}

#[test]
fn test_compute_depth_nested() {
    let (fs, store) = workspace(&[
        ("/r/src/file.js", &["./a"]),
        ("/r/src/a.js", &["./b"]),
        ("/r/src/b.js", &["./c"]),
        ("/r/src/c.js", &[]),
    ]);
    assert_eq!(depth_of(&fs, &store, "/r/src/file.js"), 3);
}

#[test]
fn test_compute_depth_circular() {
    let (fs, store) = workspace(&[
        ("/r/src/file.js", &["./a"]),
        ("/r/src/a.js", &["./b"]),
        ("/r/src/b.js", &["./a"]),
    ]);
    let depth = depth_of(&fs, &store, "/r/src/file.js");
    assert!(depth < 10);
}

#[test]
fn test_compute_depth_four_node_cycle_truncates() {
    // entry -> A -> B -> C -> A: the back edge contributes nothing, so
    // the value is finite and strictly below the four distinct modules.
    let (fs, store) = workspace(&[
        ("/r/src/entry.js", &["./A"]),
        ("/r/src/A.js", &["./B"]),
        ("/r/src/B.js", &["./C"]),
        ("/r/src/C.js", &["./A"]),
    ]);
    let depth = depth_of(&fs, &store, "/r/src/entry.js");
    assert_eq!(depth, 3);
    assert!(depth < 4);
}

#[test]
fn test_compute_depth_cache() {
    let (fs, store) = workspace(&[("/r/src/file.js", &["./a"]), ("/r/src/a.js", &[])]);
    let aliases = AliasTable { entries: Vec::new() };
    let mut ic = ImportCache::new();
    let mut rc = ResolveCache::new();
    let mut dc = DepthCache::new();
    let d1 = compute_depth(&fs, "/r", &aliases, &store, "/r/src/file.js", &mut ic, &mut rc, &mut dc);
    let d2 = compute_depth(&fs, "/r", &aliases, &store, "/r/src/file.js", &mut ic, &mut rc, &mut dc);
    assert_eq!(d1, d2);
    assert_eq!(dc.len(), 2);
}

#[test]
fn test_compute_depth_multiple_imports() {
    let (fs, store) = workspace(&[
        ("/r/src/file.js", &["./a", "./b"]),
        ("/r/src/a.js", &[]),
        ("/r/src/b.js", &["./c"]),
        ("/r/src/c.js", &[]),
    ]);
    assert_eq!(depth_of(&fs, &store, "/r/src/file.js"), 2);
}

#[test]
fn test_compute_import_depths() {
    let (fs, store) = workspace(&[
        ("/r/src/file.js", &["./a", "./b"]),
        ("/r/src/a.js", &[]),
        ("/r/src/b.js", &["./c"]),
        ("/r/src/c.js", &[]),
    ]);
    let aliases = AliasTable { entries: Vec::new() };
    let mut ic = ImportCache::new();
    let mut rc = ResolveCache::new();
    let mut dc = DepthCache::new();
    let rows = compute_import_depths(
        &fs,
        "/r",
        &aliases,
        &store,
        "/r/src/file.js",
        &mut ic,
        &mut rc,
        &mut dc,
    );
    assert_eq!(rows.len(), 2);
    let a = rows.iter().find(|r| r.0 == "./a").unwrap();
    assert_eq!(a.2, 1);
    let b = rows.iter().find(|r| r.0 == "./b").unwrap();
    assert_eq!(b.2, 2);
}

#[test]
fn test_compute_import_depths_no_imports() {
    let (fs, store) = workspace(&[("/r/src/file.js", &[])]);
    let aliases = AliasTable { entries: Vec::new() };
    let mut ic = ImportCache::new();
    let mut rc = ResolveCache::new();
    let mut dc = DepthCache::new();
    let rows = compute_import_depths(
        &fs,
        "/r",
        &aliases,
        &store,
        "/r/src/file.js",
        &mut ic,
        &mut rc,
        &mut dc,
    );
    assert_eq!(rows.len(), 0);
}
