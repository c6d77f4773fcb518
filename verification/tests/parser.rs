use oxiclean::ast::{Expr, ImportBinding, Stmt};
use oxiclean::caches::ImportCache;
use oxiclean::parser::{imports_for, SourceStore};
use oxiclean::types::SpecKind;

fn store_with(file: &str, program: Vec<Stmt>) -> SourceStore {
    let mut store = SourceStore::new();
    store.add_module(file.to_string(), program);
    store
}

fn import(source: &str, bindings: Option<Vec<ImportBinding>>, type_only: bool) -> Stmt {
    Stmt::Import { type_only, bindings, source: source.to_string() }
}

fn require_call(arg: Expr) -> Expr {
    Expr::Call { callee: Box::new(Expr::Ident("require".to_string())), arguments: vec![arg] }
}

fn lit(s: &str) -> Expr {
    Expr::StrLit(s.to_string())
}

#[test]
fn test_static_import_default() {
    // import foo from './foo';
    let store = store_with("test.js", vec![import("./foo", Some(vec![ImportBinding::Default]), false)]);
    let mut cache = ImportCache::new();
    let imports = imports_for("test.js", &store, &mut cache).unwrap();
    assert_eq!(imports.len(), 1);
    assert_eq!(imports[0].request, "./foo");
    assert!(matches!(imports[0].kind, SpecKind::Static));
}

#[test]
fn test_static_import_named() {
    // import { bar, baz } from './utils';
    let store = store_with(
        "test.js",
        vec![import(
            "./utils",
            Some(vec![
                ImportBinding::Named { type_only: false },
                ImportBinding::Named { type_only: false },
            ]),
            false,
        )],
    );
    let mut cache = ImportCache::new();
    let imports = imports_for("test.js", &store, &mut cache).unwrap();
    assert_eq!(imports.len(), 1);
    assert_eq!(imports[0].request, "./utils");
    assert!(matches!(imports[0].kind, SpecKind::Static));
}

#[test]
fn test_static_import_namespace() {
    // import * as utils from './utils';
    let store = store_with(
        "test.js",
        vec![import("./utils", Some(vec![ImportBinding::Namespace]), false)],
    );
    let mut cache = ImportCache::new();
    let imports = imports_for("test.js", &store, &mut cache).unwrap();
    assert_eq!(imports.len(), 1);
    assert_eq!(imports[0].request, "./utils");
    assert!(matches!(imports[0].kind, SpecKind::Static));
}

#[test]
fn test_side_effect_import() {
    // import './polyfills';
    let store = store_with("test.js", vec![import("./polyfills", None, false)]);
    let mut cache = ImportCache::new();
    let imports = imports_for("test.js", &store, &mut cache).unwrap();
    assert_eq!(imports.len(), 1);
    assert_eq!(imports[0].request, "./polyfills");
    assert!(matches!(imports[0].kind, SpecKind::Static));
}

#[test]
fn test_dynamic_import() {
    // import('./lazy');
    let store = store_with(
        "test.js",
        vec![Stmt::Expr(Expr::DynImport { source: Box::new(lit("./lazy")) })],
    );
    let mut cache = ImportCache::new();
    let imports = imports_for("test.js", &store, &mut cache).unwrap();
    assert_eq!(imports.len(), 1);
    assert_eq!(imports[0].request, "./lazy");
    assert!(matches!(imports[0].kind, SpecKind::Dynamic));
}

#[test]
fn test_require_call() {
    // const fs = require('fs');
    let store = store_with("test.js", vec![Stmt::VarDecl(vec![require_call(lit("fs"))])]);
    let mut cache = ImportCache::new();
    let imports = imports_for("test.js", &store, &mut cache).unwrap();
    assert_eq!(imports.len(), 1);
    assert_eq!(imports[0].request, "fs");
    assert!(matches!(imports[0].kind, SpecKind::Static));
}

#[test]
fn test_require_in_expression() {
    // const config = loadConfig(require('./config'));
    let store = store_with(
        "test.js",
        vec![Stmt::VarDecl(vec![Expr::Call {
            callee: Box::new(Expr::Ident("loadConfig".to_string())),
            arguments: vec![require_call(lit("./config"))],
        }])],
    );
    let mut cache = ImportCache::new();
    let imports = imports_for("test.js", &store, &mut cache).unwrap();
    assert_eq!(imports.len(), 1);
    assert_eq!(imports[0].request, "./config");
}

#[test]
fn test_type_only_import_skipped() {
    // import type { Foo } from './types';
    let store = store_with(
        "test.ts",
        vec![import("./types", Some(vec![ImportBinding::Named { type_only: false }]), true)],
    );
    let mut cache = ImportCache::new();
    let imports = imports_for("test.ts", &store, &mut cache).unwrap();
    assert_eq!(imports.len(), 0);
}

#[test]
fn test_mixed_type_and_runtime_import() {
    // import { type Foo, bar } from './utils';
    let store = store_with(
        "test.ts",
        vec![import(
            "./utils",
            Some(vec![
                ImportBinding::Named { type_only: true },
                ImportBinding::Named { type_only: false },
            ]),
            false,
        )],
    );
    let mut cache = ImportCache::new();
    let imports = imports_for("test.ts", &store, &mut cache).unwrap();
    assert_eq!(imports.len(), 1);
    assert_eq!(imports[0].request, "./utils");
}

#[test]
fn test_all_type_only_bindings_skipped() {
    // import { type Foo, type Bar } from './types';
    let store = store_with(
        "test.ts",
        vec![import(
            "./types",
            Some(vec![
                ImportBinding::Named { type_only: true },
                ImportBinding::Named { type_only: true },
            ]),
            false,
        )],
    );
    let mut cache = ImportCache::new();
    let imports = imports_for("test.ts", &store, &mut cache).unwrap();
    assert_eq!(imports.len(), 0);
}

#[test]
fn test_multiple_imports() {
    let store = store_with(
        "test.js",
        vec![
            import("./foo", Some(vec![ImportBinding::Default]), false),
            import("./bar", Some(vec![ImportBinding::Named { type_only: false }]), false),
            import("./side-effect", None, false),
        ],
    );
    let mut cache = ImportCache::new();
    let imports = imports_for("test.js", &store, &mut cache).unwrap();
    assert_eq!(imports.len(), 3);
    let requests: Vec<&str> = imports.iter().map(|s| s.request.as_str()).collect();
    assert!(requests.contains(&"./foo"));
    assert!(requests.contains(&"./bar"));
    assert!(requests.contains(&"./side-effect"));
}

#[test]
fn test_cache_behavior() {
    let store = store_with("test.js", vec![import("./foo", Some(vec![ImportBinding::Default]), false)]);
    let mut cache = ImportCache::new();
    let imports1 = imports_for("test.js", &store, &mut cache).unwrap();
    assert_eq!(imports1.len(), 1);
    let imports2 = imports_for("test.js", &store, &mut cache).unwrap();
    assert_eq!(imports2.len(), 1);
    assert_eq!(imports1[0].request, imports2[0].request);
    assert_eq!(cache.len(), 1);
}

#[test]
fn test_require_in_array() {
    // const modules = [require('./a'), require('./b')];
    let store = store_with(
        "test.js",
        vec![Stmt::VarDecl(vec![Expr::Array(vec![
            require_call(lit("./a")),
            require_call(lit("./b")),
        ])])],
    );
    let mut cache = ImportCache::new();
    let imports = imports_for("test.js", &store, &mut cache).unwrap();
    assert_eq!(imports.len(), 2);
    let requests: Vec<&str> = imports.iter().map(|s| s.request.as_str()).collect();
    assert!(requests.contains(&"./a"));
    assert!(requests.contains(&"./b"));
}

#[test]
fn test_require_in_object() {
    // const config = { db: require('./db'), api: require('./api') };
    let store = store_with(
        "test.js",
        vec![Stmt::VarDecl(vec![Expr::Object(vec![
            require_call(lit("./db")),
            require_call(lit("./api")),
        ])])],
    );
    let mut cache = ImportCache::new();
    let imports = imports_for("test.js", &store, &mut cache).unwrap();
    assert_eq!(imports.len(), 2);
    let requests: Vec<&str> = imports.iter().map(|s| s.request.as_str()).collect();
    assert!(requests.contains(&"./db"));
    assert!(requests.contains(&"./api"));
}

#[test]
fn test_require_in_conditional() {
    // const mod = condition ? require('./a') : require('./b');
    let store = store_with(
        "test.js",
        vec![Stmt::VarDecl(vec![Expr::Conditional {
            test: Box::new(Expr::Ident("condition".to_string())),
            consequent: Box::new(require_call(lit("./a"))),
            alternate: Box::new(require_call(lit("./b"))),
        }])],
    );
    let mut cache = ImportCache::new();
    let imports = imports_for("test.js", &store, &mut cache).unwrap();
    assert_eq!(imports.len(), 2);
    let requests: Vec<&str> = imports.iter().map(|s| s.request.as_str()).collect();
    assert!(requests.contains(&"./a"));
    assert!(requests.contains(&"./b"));
}

#[test]
fn test_require_in_assignment_rhs() {
    // handler = require('./handler');
    let store = store_with(
        "test.js",
        vec![Stmt::Expr(Expr::Assign { right: Box::new(require_call(lit("./handler"))) })],
    );
    let mut cache = ImportCache::new();
    let imports = imports_for("test.js", &store, &mut cache).unwrap();
    assert_eq!(imports.len(), 1);
    assert_eq!(imports[0].request, "./handler");
}

#[test]
fn test_require_via_generic_call_descent() {
    // wrap(inner(require('./x')));
    let store = store_with(
        "test.js",
        vec![Stmt::Expr(Expr::Call {
            callee: Box::new(Expr::Ident("wrap".to_string())),
            arguments: vec![Expr::Call {
                callee: Box::new(Expr::Ident("inner".to_string())),
                arguments: vec![require_call(lit("./x"))],
            }],
        })],
    );
    let mut cache = ImportCache::new();
    let imports = imports_for("test.js", &store, &mut cache).unwrap();
    assert_eq!(imports.len(), 1);
    assert_eq!(imports[0].request, "./x");
}

#[test]
fn test_require_without_string_literal_ignored() {
    // require(name); require();
    let store = store_with(
        "test.js",
        vec![
            Stmt::Expr(require_call(Expr::Ident("name".to_string()))),
            Stmt::Expr(Expr::Call {
                callee: Box::new(Expr::Ident("require".to_string())),
                arguments: vec![],
            }),
        ],
    );
    let mut cache = ImportCache::new();
    let imports = imports_for("test.js", &store, &mut cache).unwrap();
    assert_eq!(imports.len(), 0);
}

#[test]
fn test_no_imports() {
    // const x = 42;
    let store = store_with("test.js", vec![Stmt::VarDecl(vec![Expr::Opaque])]);
    let mut cache = ImportCache::new();
    let imports = imports_for("test.js", &store, &mut cache).unwrap();
    assert_eq!(imports.len(), 0);
}

#[test]
fn test_typescript_file() {
    // import { Component } from './component';
    let store = store_with(
        "test.ts",
        vec![import("./component", Some(vec![ImportBinding::Named { type_only: false }]), false)],
    );
    let mut cache = ImportCache::new();
    let imports = imports_for("test.ts", &store, &mut cache).unwrap();
    assert_eq!(imports.len(), 1);
    assert_eq!(imports[0].request, "./component");
}

#[test]
fn test_jsx_file() {
    // import React from 'react';
    let store = store_with("test.jsx", vec![import("react", Some(vec![ImportBinding::Default]), false)]);
    let mut cache = ImportCache::new();
    let imports = imports_for("test.jsx", &store, &mut cache).unwrap();
    assert_eq!(imports.len(), 1);
    assert_eq!(imports[0].request, "react");
}

#[test]
fn test_unreadable_file_yields_nothing() {
    let store = SourceStore::new();
    let mut cache = ImportCache::new();
    assert!(imports_for("missing.js", &store, &mut cache).is_none());
    assert_eq!(cache.len(), 0);
}
