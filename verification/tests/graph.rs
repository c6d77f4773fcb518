use oxiclean::ast::Stmt;
use oxiclean::caches::{ImportCache, ReachableCache, ResolveCache};
use oxiclean::fsmodel::Fs;
use oxiclean::graph::reachable_modules;
use oxiclean::parser::SourceStore;
use oxiclean::resolver::AliasTable;

/// Builds a workspace model in which each listed file imports the given
/// requests through bare side-effect imports.
fn workspace(modules: &[(&str, &[&str])]) -> (Fs, SourceStore) {
    let mut fs = Fs::new();
    let mut store = SourceStore::new();
    let mut dirs: Vec<String> = Vec::new();
    for (file, imports) in modules {
        fs.add_file(file.to_string());
        let program: Vec<Stmt> = imports
            .iter()
            .map(|req| Stmt::Import { type_only: false, bindings: None, source: req.to_string() })
            .collect();
        store.add_module(file.to_string(), program);
        let mut p = *file;
        while let Some(idx) = p.rfind('/') {
            let d = if idx == 0 { "/" } else { &p[..idx] };
            if !dirs.contains(&d.to_string()) {
                dirs.push(d.to_string());
            }
            if idx == 0 {
                break;
            }
            p = d;
        }
    }
    for d in dirs {
        fs.add_dir(d);
    }
    (fs, store)
}

fn reach(fs: &Fs, store: &SourceStore, start: &str) -> Vec<String> {
    let aliases = AliasTable { entries: Vec::new() };
    let mut ic = ImportCache::new();
    let mut rc = ResolveCache::new();
    let mut rch = ReachableCache::new();
    reachable_modules(fs, "/r", &aliases, store, start, &mut ic, &mut rc, &mut rch)
}

#[test]
fn test_reachable_modules_simple() {
    let (fs, store) = workspace(&[
        ("/r/src/index.js", &["./a", "./b"]),
        ("/r/src/a.js", &[]),
        ("/r/src/b.js", &[]),
    ]);
    let r = reach(&fs, &store, "/r/src/index.js");
    assert_eq!(r.len(), 3);
    assert!(r.contains(&"/r/src/index.js".to_string()));
    assert!(r.contains(&"/r/src/a.js".to_string()));
    assert!(r.contains(&"/r/src/b.js".to_string()));
}

#[test]
fn test_reachable_modules_nested() {
    let (fs, store) = workspace(&[
        ("/r/src/index.js", &["./a"]),
        ("/r/src/a.js", &["./b"]),
        ("/r/src/b.js", &["./c"]),
        ("/r/src/c.js", &[]),
    ]);
    let r = reach(&fs, &store, "/r/src/index.js");
    assert_eq!(r.len(), 4);
    assert!(r.contains(&"/r/src/index.js".to_string()));
    assert!(r.contains(&"/r/src/a.js".to_string()));
    assert!(r.contains(&"/r/src/b.js".to_string()));
    assert!(r.contains(&"/r/src/c.js".to_string()));
}

#[test]
fn test_reachable_modules_circular() {
    let (fs, store) = workspace(&[
        ("/r/src/index.js", &["./a"]),
        ("/r/src/a.js", &["./b"]),
        ("/r/src/b.js", &["./a"]),
    ]);
    let r = reach(&fs, &store, "/r/src/index.js");
    assert_eq!(r.len(), 3);
    assert!(r.contains(&"/r/src/index.js".to_string()));
    assert!(r.contains(&"/r/src/a.js".to_string()));
    assert!(r.contains(&"/r/src/b.js".to_string()));
}

#[test]
fn test_reachable_terminates_on_full_cycle() {
    // entry -> A -> B -> C -> A: the closure is exactly these four.
    let (fs, store) = workspace(&[
        ("/r/src/entry.js", &["./A"]),
        ("/r/src/A.js", &["./B"]),
        ("/r/src/B.js", &["./C"]),
        ("/r/src/C.js", &["./A"]),
    ]);
    let r = reach(&fs, &store, "/r/src/entry.js");
    assert_eq!(r.len(), 4);
    assert!(r.contains(&"/r/src/entry.js".to_string()));
    assert!(r.contains(&"/r/src/A.js".to_string()));
    assert!(r.contains(&"/r/src/B.js".to_string()));
    assert!(r.contains(&"/r/src/C.js".to_string()));
}

#[test]
fn test_reachable_modules_cache() {
    let (fs, store) = workspace(&[("/r/src/index.js", &["./a"]), ("/r/src/a.js", &[])]);
    let aliases = AliasTable { entries: Vec::new() };
    let mut ic = ImportCache::new();
    let mut rc = ResolveCache::new();
    let mut rch = ReachableCache::new();
    let r1 = reachable_modules(&fs, "/r", &aliases, &store, "/r/src/index.js", &mut ic, &mut rc, &mut rch);
    let r2 = reachable_modules(&fs, "/r", &aliases, &store, "/r/src/index.js", &mut ic, &mut rc, &mut rch);
    assert_eq!(r1.len(), 2);
    assert_eq!(r1.len(), r2.len());
    assert_eq!(rch.len(), 1);
}

#[test]
fn test_reachable_modules_no_imports() {
    let (fs, store) = workspace(&[("/r/src/index.js", &[])]);
    let r = reach(&fs, &store, "/r/src/index.js");
    assert_eq!(r.len(), 1);
    assert!(r.contains(&"/r/src/index.js".to_string()));
}

#[test]
fn test_reachable_modules_multiple_paths() {
    let (fs, store) = workspace(&[
        ("/r/src/index.js", &["./a", "./b"]),
        ("/r/src/a.js", &["./c"]),
        ("/r/src/b.js", &["./c"]),
        ("/r/src/c.js", &[]),
    ]);
    let r = reach(&fs, &store, "/r/src/index.js");
    assert_eq!(r.len(), 4);
    assert!(r.contains(&"/r/src/index.js".to_string()));
    assert!(r.contains(&"/r/src/a.js".to_string()));
    assert!(r.contains(&"/r/src/b.js".to_string()));
    assert!(r.contains(&"/r/src/c.js".to_string()));
}
