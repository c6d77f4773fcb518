use oxiclean::ast::Stmt;
use oxiclean::bloat;
use oxiclean::depth;
use oxiclean::fsmodel::Fs;
use oxiclean::parser::SourceStore;
use oxiclean::resolver::AliasTable;

struct Builder {
    fs: Fs,
    store: SourceStore,
    walked: Vec<String>,
    dirs: Vec<String>,
}

impl Builder {
    fn new() -> Builder {
        Builder { fs: Fs::new(), store: SourceStore::new(), walked: Vec::new(), dirs: Vec::new() }
    }

    fn module(&mut self, file: &str, imports: &[String]) {
        self.fs.add_file(file.to_string());
        self.walked.push(file.to_string());
        let program: Vec<Stmt> = imports
            .iter()
            .map(|req| Stmt::Import { type_only: false, bindings: None, source: req.clone() })
            .collect();
        self.store.add_module(file.to_string(), program);
        let mut p = file;
        while let Some(idx) = p.rfind('/') {
            let d = if idx == 0 { "/" } else { &p[..idx] };
            if !self.dirs.contains(&d.to_string()) {
                self.dirs.push(d.to_string());
            }
            if idx == 0 {
                break;
            }
            p = d;
        }
    }

    fn finish(mut self) -> (Fs, SourceStore, Vec<String>) {
        for d in self.dirs.drain(..) {
            self.fs.add_dir(d);
        }
        (self.fs, self.store, self.walked)
    }
}

#[test]
fn test_bloat_whole_graph_warning_without_import_warnings() {
    // The entry imports two disjoint subtrees of 150 and 149 modules;
    // neither sibling crosses the threshold of 200, but the whole graph
    // does.
    let mut b = Builder::new();
    let m_imports: Vec<String> = (0..149).map(|i| format!("./m{}", i)).collect();
    b.module("/r/src/m.js", &m_imports);
    for i in 0..149 {
        b.module(&format!("/r/src/m{}.js", i), &[]);
    }
    let n_imports: Vec<String> = (0..148).map(|i| format!("./n{}", i)).collect();
    b.module("/r/src/n.js", &n_imports);
    for i in 0..148 {
        b.module(&format!("/r/src/n{}.js", i), &[]);
    }
    b.module("/r/src/entry.js", &["./m".to_string(), "./n".to_string()]);
    let (fs, store, walked) = b.finish();
    let cfg = bloat::Config {
        root: Some("/r".to_string()),
        threshold: 200,
        entry_glob: Some("entry".to_string()),
        tsconfig_paths: AliasTable { entries: Vec::new() },
    };
    let result = bloat::run_import_bloat_check(&cfg, &fs, &store, &walked).unwrap();
    assert_eq!(result.warnings.len(), 1);
    let w = &result.warnings[0];
    assert_eq!(w.import_statement, "Entry file (entire graph)");
    assert_eq!(w.from_file, "src/entry.js");
    assert_eq!(w.reachable_unique_modules, 300);
    assert!(w.resolved_path.is_none());
    assert_eq!(result.files_analyzed, 300);
}

#[test]
fn test_bloat_per_import_warning() {
    let mut b = Builder::new();
    b.module("/r/src/entry.js", &["./fat".to_string()]);
    let fat_imports: Vec<String> = (0..5).map(|i| format!("./leaf{}", i)).collect();
    b.module("/r/src/fat.js", &fat_imports);
    for i in 0..5 {
        b.module(&format!("/r/src/leaf{}.js", i), &[]);
    }
    let (fs, store, walked) = b.finish();
    let cfg = bloat::Config {
        root: Some("/r".to_string()),
        threshold: 3,
        entry_glob: Some("entry".to_string()),
        tsconfig_paths: AliasTable { entries: Vec::new() },
    };
    let result = bloat::run_import_bloat_check(&cfg, &fs, &store, &walked).unwrap();
    assert_eq!(result.warnings.len(), 2);
    assert_eq!(result.warnings[0].import_statement, "import './fat'");
    assert_eq!(result.warnings[0].reachable_unique_modules, 6);
    assert_eq!(result.warnings[0].resolved_path, Some("src/fat.js".to_string()));
    assert_eq!(result.warnings[1].import_statement, "Entry file (entire graph)");
    assert_eq!(result.warnings[1].reachable_unique_modules, 7);
}

#[test]
fn test_bloat_errors() {
    let cfg = bloat::Config {
        root: None,
        threshold: 200,
        entry_glob: None,
        tsconfig_paths: AliasTable { entries: Vec::new() },
    };
    let fs = Fs::new();
    let store = SourceStore::new();
    let walked: Vec<String> = Vec::new();
    assert!(matches!(
        bloat::run_import_bloat_check(&cfg, &fs, &store, &walked),
        Err(bloat::CheckError::ConfigNotInitialized)
    ));
    let cfg2 = bloat::Config {
        root: Some("/r".to_string()),
        threshold: 200,
        entry_glob: None,
        tsconfig_paths: AliasTable { entries: Vec::new() },
    };
    assert!(matches!(
        bloat::run_import_bloat_check(&cfg2, &fs, &store, &walked),
        Err(bloat::CheckError::NoEntryFiles)
    ));
}

#[test]
fn test_bloat_config_initialize() {
    let mut cfg = bloat::Config {
        root: None,
        threshold: 200,
        entry_glob: None,
        tsconfig_paths: AliasTable { entries: Vec::new() },
    };
    assert!(cfg.initialize(Some("/detected".to_string()), AliasTable { entries: Vec::new() }).is_ok());
    assert_eq!(cfg.root(), Some(&"/detected".to_string()));

    let mut explicit = bloat::Config {
        root: Some("/given".to_string()),
        threshold: 200,
        entry_glob: None,
        tsconfig_paths: AliasTable { entries: Vec::new() },
    };
    assert!(explicit.initialize(Some("/detected".to_string()), AliasTable { entries: Vec::new() }).is_ok());
    assert_eq!(explicit.root(), Some(&"/given".to_string()));

    let mut bare = bloat::Config {
        root: None,
        threshold: 200,
        entry_glob: None,
        tsconfig_paths: AliasTable { entries: Vec::new() },
    };
    assert_eq!(
        bare.initialize(None, AliasTable { entries: Vec::new() }),
        Err(bloat::CheckError::ConfigNotInitialized)
    );
}

#[test]
fn test_depth_config_initialize_and_root() {
    let mut cfg = depth::Config {
        root: None,
        threshold: 10,
        entry_glob: None,
        tsconfig_paths: AliasTable { entries: Vec::new() },
    };
    assert!(cfg.root().is_err());
    assert!(cfg.initialize(Some("/detected".to_string()), AliasTable { entries: Vec::new() }).is_ok());
    assert_eq!(cfg.root().unwrap(), &"/detected".to_string());
}

#[test]
fn test_depth_run_warns_on_deep_chain() {
    let mut b = Builder::new();
    b.module("/r/src/entry.js", &["./c0".to_string()]);
    for i in 0..4 {
        b.module(&format!("/r/src/c{}.js", i), &[format!("./c{}", i + 1)]);
    }
    b.module("/r/src/c4.js", &[]);
    let (fs, store, walked) = b.finish();
    let cfg = depth::Config {
        root: Some("/r".to_string()),
        threshold: 3,
        entry_glob: Some("entry".to_string()),
        tsconfig_paths: AliasTable { entries: Vec::new() },
    };
    let result = depth::run_import_depth_check(&cfg, &fs, &store, &walked).unwrap();
    assert_eq!(result.warnings.len(), 1);
    let w = &result.warnings[0];
    assert_eq!(w.import_statement, "import './c0'");
    assert_eq!(w.from_file, "src/entry.js");
    assert_eq!(w.depth, 5);
    assert_eq!(w.resolved_path, Some("src/c0.js".to_string()));
}

#[test]
fn test_depth_run_quiet_below_threshold() {
    let mut b = Builder::new();
    b.module("/r/src/entry.js", &["./a".to_string()]);
    b.module("/r/src/a.js", &[]);
    let (fs, store, walked) = b.finish();
    let cfg = depth::Config {
        root: Some("/r".to_string()),
        threshold: 10,
        entry_glob: Some("entry".to_string()),
        tsconfig_paths: AliasTable { entries: Vec::new() },
    };
    let result = depth::run_import_depth_check(&cfg, &fs, &store, &walked).unwrap();
    assert_eq!(result.warnings.len(), 0);
}
