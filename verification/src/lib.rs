//! Static analysis of JavaScript/TypeScript import graphs.
//!
//! The crate models a scanned workspace (files, directories, package
//! manifests and parsed modules) as plain data, and provides a verified
//! module resolver, import-specifier extraction, reachability and depth
//! analyses over that model, plus the two checkers built on them.

pub mod types;
pub mod strutil;
pub mod constants;
pub mod pathutil;
pub mod fsmodel;
pub mod ast;
pub mod caches;
pub mod parser;
pub mod graph;
pub mod depth;
pub mod collector;
pub mod config;
pub mod bloat;
pub mod reporter;
pub mod resolver;
