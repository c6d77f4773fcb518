use oxiclean::caches::ResolveCache;
use oxiclean::fsmodel::{DotExport, ExportConditions, ExportsField, Fs, PackageManifest};
use oxiclean::resolver::{resolve, resolve_file, resolve_node_module_from_dir, AliasTable};

/// Builds the model of a tree holding the given files, with every
/// ancestor directory present.
fn fs_from(files: &[&str]) -> Fs {
    let mut fs = Fs::new();
    let mut dirs: Vec<String> = Vec::new();
    for f in files {
        fs.add_file(f.to_string());
        let mut p = *f;
        while let Some(idx) = p.rfind('/') {
            let d = if idx == 0 { "/" } else { &p[..idx] };
            if !dirs.contains(&d.to_string()) {
                dirs.push(d.to_string());
            }
            if idx == 0 {
                break;
            }
            p = d;
        }
    }
    for d in dirs {
        fs.add_dir(d);
    }
    fs
}

fn no_aliases() -> AliasTable {
    AliasTable { entries: Vec::new() }
}

#[test]
fn test_resolve_relative_same_dir() {
    let fs = fs_from(&["/proj/src/file.js", "/proj/src/utils.js"]);
    let mut cache = ResolveCache::new();
    let resolved = resolve(&fs, "/proj", &no_aliases(), "/proj/src/file.js", "./utils", &mut cache);
    assert_eq!(resolved, Some("/proj/src/utils.js".to_string()));
}

#[test]
fn test_resolve_relative_parent_dir() {
    let fs = fs_from(&["/proj/src/components/Button.js", "/proj/src/utils.js"]);
    let mut cache = ResolveCache::new();
    let resolved = resolve(
        &fs,
        "/proj",
        &no_aliases(),
        "/proj/src/components/Button.js",
        "../utils",
        &mut cache,
    );
    assert_eq!(resolved, Some("/proj/src/utils.js".to_string()));
}

#[test]
fn test_resolve_with_extension() {
    let fs = fs_from(&["/proj/src/file.js", "/proj/src/utils.ts"]);
    let mut cache = ResolveCache::new();
    let resolved = resolve(&fs, "/proj", &no_aliases(), "/proj/src/file.js", "./utils", &mut cache);
    assert_eq!(resolved, Some("/proj/src/utils.ts".to_string()));
}

#[test]
fn test_resolve_index_file() {
    let fs = fs_from(&["/proj/src/file.js", "/proj/src/utils/index.js"]);
    let mut cache = ResolveCache::new();
    let resolved = resolve(&fs, "/proj", &no_aliases(), "/proj/src/file.js", "./utils", &mut cache);
    assert_eq!(resolved, Some("/proj/src/utils/index.js".to_string()));
}

#[test]
fn test_resolve_tsconfig_path_alias() {
    let fs = fs_from(&["/proj/src/file.js", "/proj/src/components/Button.js"]);
    let aliases = AliasTable {
        entries: vec![("@components".to_string(), vec!["/proj/src/components".to_string()])],
    };
    let mut cache = ResolveCache::new();
    let resolved = resolve(
        &fs,
        "/proj",
        &aliases,
        "/proj/src/file.js",
        "@components/Button",
        &mut cache,
    );
    assert_eq!(resolved, Some("/proj/src/components/Button.js".to_string()));
}

#[test]
fn test_resolve_tsconfig_path_alias_with_trailing_slash() {
    let fs = fs_from(&["/proj/src/file.js", "/proj/src/components/Button.js"]);
    let aliases = AliasTable {
        entries: vec![("@components/*".to_string(), vec!["/proj/src/components".to_string()])],
    };
    let mut cache = ResolveCache::new();
    let resolved = resolve(
        &fs,
        "/proj",
        &aliases,
        "/proj/src/file.js",
        "@components/Button",
        &mut cache,
    );
    assert_eq!(resolved, Some("/proj/src/components/Button.js".to_string()));
}

#[test]
fn test_resolve_nonexistent_file() {
    let fs = fs_from(&["/proj/src/file.js"]);
    let mut cache = ResolveCache::new();
    let resolved = resolve(
        &fs,
        "/proj",
        &no_aliases(),
        "/proj/src/file.js",
        "./nonexistent",
        &mut cache,
    );
    assert_eq!(resolved, None);
}

#[test]
fn test_resolve_cache_behavior() {
    let fs = fs_from(&["/proj/src/file.js", "/proj/src/utils.js"]);
    let mut cache = ResolveCache::new();
    let resolved1 = resolve(&fs, "/proj", &no_aliases(), "/proj/src/file.js", "./utils", &mut cache);
    assert!(resolved1.is_some());
    let resolved2 = resolve(&fs, "/proj", &no_aliases(), "/proj/src/file.js", "./utils", &mut cache);
    assert!(resolved2.is_some());
    assert_eq!(resolved1.unwrap(), resolved2.unwrap());
    assert_eq!(cache.len(), 1);
}

#[test]
fn test_resolve_node_modules_with_main() {
    let mut fs = fs_from(&["/proj/src/file.js", "/proj/node_modules/test-pkg/lib/index.js"]);
    fs.add_package(
        "/proj/node_modules/test-pkg".to_string(),
        PackageManifest { exports: None, module_field: None, main_field: Some("lib/index.js".to_string()) },
    );
    let mut cache = ResolveCache::new();
    let resolved = resolve(&fs, "/proj", &no_aliases(), "/proj/src/file.js", "test-pkg", &mut cache);
    assert_eq!(resolved, Some("/proj/node_modules/test-pkg/lib/index.js".to_string()));
}

#[test]
fn test_resolve_node_modules_with_exports() {
    let mut fs = fs_from(&["/proj/src/file.js", "/proj/node_modules/test-pkg/dist/index.js"]);
    fs.add_package(
        "/proj/node_modules/test-pkg".to_string(),
        PackageManifest {
            exports: Some(ExportsField::Single("./dist/index.js".to_string())),
            module_field: None,
            main_field: None,
        },
    );
    let mut cache = ResolveCache::new();
    let resolved = resolve(&fs, "/proj", &no_aliases(), "/proj/src/file.js", "test-pkg", &mut cache);
    assert_eq!(resolved, Some("/proj/node_modules/test-pkg/dist/index.js".to_string()));
}

#[test]
fn test_resolve_node_modules_with_exports_object() {
    let mut fs = fs_from(&["/proj/src/file.js", "/proj/node_modules/test-pkg/dist/index.js"]);
    fs.add_package(
        "/proj/node_modules/test-pkg".to_string(),
        PackageManifest {
            exports: Some(ExportsField::Table(Some(DotExport::Single("./dist/index.js".to_string())))),
            module_field: None,
            main_field: None,
        },
    );
    let mut cache = ResolveCache::new();
    let resolved = resolve(&fs, "/proj", &no_aliases(), "/proj/src/file.js", "test-pkg", &mut cache);
    assert_eq!(resolved, Some("/proj/node_modules/test-pkg/dist/index.js".to_string()));
}

#[test]
fn test_resolve_node_modules_fallback_to_index() {
    let fs = fs_from(&["/proj/src/file.js", "/proj/node_modules/test-pkg/index.js"]);
    let mut cache = ResolveCache::new();
    let resolved = resolve(&fs, "/proj", &no_aliases(), "/proj/src/file.js", "test-pkg", &mut cache);
    assert_eq!(resolved, Some("/proj/node_modules/test-pkg/index.js".to_string()));
}

#[test]
fn test_resolve_node_modules_walks_up() {
    let fs = fs_from(&["/proj/src/nested/deep/file.js", "/proj/node_modules/test-pkg/index.js"]);
    let mut cache = ResolveCache::new();
    let resolved = resolve(
        &fs,
        "/proj",
        &no_aliases(),
        "/proj/src/nested/deep/file.js",
        "test-pkg",
        &mut cache,
    );
    assert_eq!(resolved, Some("/proj/node_modules/test-pkg/index.js".to_string()));
}

#[test]
fn test_resolve_extension_probe_priority() {
    let fs = fs_from(&["/proj/src/utils.ts", "/proj/src/utils.js", "/proj/src/utils.cjs"]);
    let resolved = resolve_file(&fs, "/proj/src/utils");
    assert_eq!(resolved, Some("/proj/src/utils.ts".to_string()));
}

#[test]
fn test_resolve_index_probe_priority() {
    let fs = fs_from(&["/proj/src/utils/index.tsx", "/proj/src/utils/index.js"]);
    let resolved = resolve_file(&fs, "/proj/src/utils");
    assert_eq!(resolved, Some("/proj/src/utils/index.tsx".to_string()));
}

#[test]
fn test_wildcard_alias_requires_longer_request() {
    let fs = fs_from(&["/proj/src/components/index.ts", "/proj/src/file.js"]);
    let aliases = AliasTable {
        entries: vec![("@x/*".to_string(), vec!["/proj/src/components".to_string()])],
    };
    let mut cache = ResolveCache::new();
    // The bare prefix is not matched by a wildcard alias, so it falls to
    // the package search and stays unresolved.
    let bare = resolve(&fs, "/proj", &aliases, "/proj/src/file.js", "@x", &mut cache);
    assert_eq!(bare, None);
    // A strictly longer request matches and resolves under the base.
    let longer = resolve(&fs, "/proj", &aliases, "/proj/src/file.js", "@x/index", &mut cache);
    assert_eq!(longer, Some("/proj/src/components/index.ts".to_string()));
}

#[test]
fn test_plain_alias_matches_itself() {
    let fs = fs_from(&["/proj/src/components/index.ts", "/proj/src/file.js"]);
    let aliases = AliasTable {
        entries: vec![("@x".to_string(), vec!["/proj/src/components".to_string()])],
    };
    let mut cache = ResolveCache::new();
    let bare = resolve(&fs, "/proj", &aliases, "/proj/src/file.js", "@x", &mut cache);
    assert_eq!(bare, Some("/proj/src/components/index.ts".to_string()));
}

#[test]
fn test_node_module_search_stops_at_root() {
    // The package sits above the declared workspace root and must not be
    // found from below it.
    let fs = fs_from(&["/outer/node_modules/test-pkg/index.js", "/outer/proj/src/file.js"]);
    let found = resolve_node_module_from_dir(&fs, "/outer/proj/src", "test-pkg", "/outer/proj");
    assert_eq!(found, None);
    // From a start inside the wider tree with the wider root it is found.
    let found_wide = resolve_node_module_from_dir(&fs, "/outer/proj/src", "test-pkg", "/outer");
    assert_eq!(found_wide, Some("/outer/node_modules/test-pkg/index.js".to_string()));
}

#[test]
fn test_scoped_package_is_one_segment() {
    let fs = fs_from(&["/proj/node_modules/@scope/pkg/index.js", "/proj/src/file.js"]);
    let mut cache = ResolveCache::new();
    let resolved = resolve(
        &fs,
        "/proj",
        &no_aliases(),
        "/proj/src/file.js",
        "@scope/pkg",
        &mut cache,
    );
    assert_eq!(resolved, Some("/proj/node_modules/@scope/pkg/index.js".to_string()));
}

#[test]
fn test_exports_conditions_precedence() {
    let mut fs = fs_from(&[
        "/proj/src/file.js",
        "/proj/node_modules/test-pkg/esm.js",
        "/proj/node_modules/test-pkg/cjs.js",
    ]);
    fs.add_package(
        "/proj/node_modules/test-pkg".to_string(),
        PackageManifest {
            exports: Some(ExportsField::Table(Some(DotExport::Conditions(ExportConditions {
                import_target: Some("./esm.js".to_string()),
                require_target: Some("./cjs.js".to_string()),
                default_target: None,
            })))),
            module_field: None,
            main_field: None,
        },
    );
    let mut cache = ResolveCache::new();
    let resolved = resolve(&fs, "/proj", &no_aliases(), "/proj/src/file.js", "test-pkg", &mut cache);
    assert_eq!(resolved, Some("/proj/node_modules/test-pkg/esm.js".to_string()));
}
