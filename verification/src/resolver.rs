//! The module resolver: relative requests against the filesystem model,
//! TypeScript path aliases, and bounded upward `node_modules` search, with
//! a shared memo keyed by `(importing file, request)`.

use vstd::prelude::*;
use vstd::string::StrSliceExecFns;
use vstd::string::StringExecFns;
use crate::caches::{ResolveCache, resolve_cache_view};
use crate::constants::{EXTENSION_COUNT, ext_at, index_file_at, spec_index_file, spec_with_ext};
use crate::fsmodel::{DotExport, ExportsField, Fs, PackageManifest};
use crate::pathutil::{
    clean_path, dirname, is_relative_request, join_path, spec_cleaned, spec_dirname,
    spec_is_relative, spec_join,
};
use crate::strutil::{
    concat_str, ends_with_str, spec_ends_with, spec_starts_with, spec_trim_end, spec_trim_start,
    spec_trim_start_char, starts_with_str, str_eq, substring, trim_end_str, trim_start_char,
    trim_start_str,
};

verus! {

/// First index file name, in priority order, that exists under `p`,
/// starting the probe at position `i`.
pub open spec fn spec_probe_index(fs: Fs, p: Seq<char>, i: int) -> Option<Seq<char>>
    decreases EXTENSION_COUNT - i,
{
    if i < 0 || i >= EXTENSION_COUNT {
        None
    } else {
        let cand = spec_join(p, spec_index_file(i));
        if fs.spec_exists(cand) {
            Some(cand)
        } else {
            spec_probe_index(fs, p, i + 1)
        }
    }
}

/// First extension, in priority order, whose direct append to `p` exists,
/// starting the probe at position `i`.
pub open spec fn spec_probe_ext(fs: Fs, p: Seq<char>, i: int) -> Option<Seq<char>>
    decreases EXTENSION_COUNT - i,
{
    if i < 0 || i >= EXTENSION_COUNT {
        None
    } else {
        let cand = spec_with_ext(p, i);
        if fs.spec_exists(cand) {
            Some(cand)
        } else {
            spec_probe_ext(fs, p, i + 1)
        }
    }
}

/// File resolution of a normalized path: the path itself when it is a
/// regular file; the first index file when it is a directory; the first
/// extension probe; and, for a path that does not exist at all, one more
/// index probe.
pub open spec fn spec_resolve_file(fs: Fs, p: Seq<char>) -> Option<Seq<char>> {
    if fs.spec_is_file(p) {
        Some(p)
    } else if fs.spec_is_dir(p) && spec_probe_index(fs, p, 0) is Some {
        spec_probe_index(fs, p, 0)
    } else if spec_probe_ext(fs, p, 0) is Some {
        spec_probe_ext(fs, p, 0)
    } else if !fs.spec_exists(p) {
        spec_probe_index(fs, p, 0)
    } else {
        None
    }
}

fn probe_index(fs: &Fs, p: &str) -> (r: Option<String>)
    ensures
        r.deep_view() == spec_probe_index(*fs, p@, 0),
{
    let mut i: usize = 0;
    while i < EXTENSION_COUNT
        invariant
            0 <= i <= EXTENSION_COUNT,
            forall|j: int| 0 <= j < i ==> !fs.spec_exists(spec_join(p@, spec_index_file(j))),
        decreases EXTENSION_COUNT - i,
    {
        let name = index_file_at(i);
        let cand = join_path(p, name.as_str());
        if fs.path_exists(cand.as_str()) {
            proof {
                lemma_probe_index_stable(*fs, p@, 0, i as int);
                assert(spec_probe_index(*fs, p@, i as int) == Some(cand@));
            }
            return Some(cand);
        }
        i += 1;
    }
    proof {
        lemma_probe_index_stable(*fs, p@, 0, EXTENSION_COUNT as int);
    }
    None
}

/// The probe result is the same from `a` as from `b` when every position
/// before `b` failed.
proof fn lemma_probe_index_stable(fs: Fs, p: Seq<char>, a: int, b: int)
    requires
        0 <= a <= b <= EXTENSION_COUNT,
        forall|j: int| 0 <= j < b ==> !fs.spec_exists(spec_join(p, spec_index_file(j))),
    ensures
        spec_probe_index(fs, p, a) == spec_probe_index(fs, p, b),
    decreases b - a,
{
    if a < b {
        lemma_probe_index_stable(fs, p, a + 1, b);
    }
}

proof fn lemma_probe_ext_stable(fs: Fs, p: Seq<char>, a: int, b: int)
    requires
        0 <= a <= b <= EXTENSION_COUNT,
        forall|j: int| 0 <= j < b ==> !fs.spec_exists(spec_with_ext(p, j)),
    ensures
        spec_probe_ext(fs, p, a) == spec_probe_ext(fs, p, b),
    decreases b - a,
{
    if a < b {
        lemma_probe_ext_stable(fs, p, a + 1, b);
    }
}

fn probe_ext(fs: &Fs, p: &str) -> (r: Option<String>)
    ensures
        r.deep_view() == spec_probe_ext(*fs, p@, 0),
{
    let mut i: usize = 0;
    while i < EXTENSION_COUNT
        invariant
            0 <= i <= EXTENSION_COUNT,
            forall|j: int| 0 <= j < i ==> !fs.spec_exists(spec_with_ext(p@, j)),
        decreases EXTENSION_COUNT - i,
    {
        let e = ext_at(i);
        let mut cand = concat_str(p, ".");
        cand.append(e.as_str());
        proof {
            assert(cand@ =~= spec_with_ext(p@, i as int));
        }
        if fs.path_exists(cand.as_str()) {
            proof {
                lemma_probe_ext_stable(*fs, p@, 0, i as int);
                assert(spec_probe_ext(*fs, p@, i as int) == Some(cand@));
            }
            return Some(cand);
        }
        i += 1;
    }
    proof {
        lemma_probe_ext_stable(*fs, p@, 0, EXTENSION_COUNT as int);
    }
    None
}

/// File resolution of a lexically normalized path, as described above.
pub fn resolve_file(fs: &Fs, p: &str) -> (r: Option<String>)
    ensures
        r.deep_view() == spec_resolve_file(*fs, p@),
{
    if fs.is_file(p) {
        return Some(String::from_str(p));
    }
    if fs.is_dir(p) {
        if let Some(found) = probe_index(fs, p) {
            return Some(found);
        }
    }
    if let Some(found) = probe_ext(fs, p) {
        return Some(found);
    }
    if !fs.path_exists(p) {
        if let Some(found) = probe_index(fs, p) {
            return Some(found);
        }
    }
    None
}

/// The tsconfig path aliases of a run, in insertion order, each with its
/// ordered candidate base paths. Built once before analysis, read-only
/// afterwards.
pub struct AliasTable {
    pub entries: Vec<(String, Vec<String>)>,
}

/// Whether an alias matches a request: a wildcard alias (ending `/*`) asks
/// for a strictly longer request with the alias's prefix; a plain alias
/// matches by literal prefix, the alias itself included.
pub open spec fn spec_alias_matches(alias: Seq<char>, req: Seq<char>) -> bool {
    if spec_ends_with(alias, "/*"@) {
        let pattern = spec_trim_end(alias, "/*"@);
        spec_starts_with(req, pattern) && req.len() > pattern.len()
    } else {
        spec_starts_with(req, alias)
    }
}

/// The request with the matched prefix removed and leading separators
/// trimmed.
pub open spec fn spec_alias_remainder(alias: Seq<char>, req: Seq<char>) -> Seq<char> {
    if spec_ends_with(alias, "/*"@) {
        let pattern = spec_trim_end(alias, "/*"@);
        if pattern.len() <= req.len() {
            spec_trim_start_char(req.skip(pattern.len() as int), '/')
        } else {
            spec_trim_start_char(Seq::empty(), '/')
        }
    } else {
        spec_trim_start_char(spec_trim_start(req, alias), '/')
    }
}

pub fn alias_matches(alias: &str, req: &str) -> (b: bool)
    ensures
        b == spec_alias_matches(alias@, req@),
{
    if ends_with_str(alias, "/*") {
        let pattern = trim_end_str(alias, "/*");
        let pl = pattern.as_str().unicode_len();
        let rl = req.unicode_len();
        starts_with_str(req, pattern.as_str()) && rl > pl
    } else {
        starts_with_str(req, alias)
    }
}

pub fn alias_remainder(alias: &str, req: &str) -> (r: String)
    ensures
        r@ == spec_alias_remainder(alias@, req@),
{
    if ends_with_str(alias, "/*") {
        let pattern = trim_end_str(alias, "/*");
        let pl = pattern.as_str().unicode_len();
        let rl = req.unicode_len();
        if pl <= rl {
            let rest = substring(req, pl, rl);
            proof {
                assert(rest@ =~= req@.skip(pattern@.len() as int));
            }
            trim_start_char(rest.as_str(), '/')
        } else {
            proof {
                reveal_strlit("");
                assert(""@ =~= Seq::<char>::empty());
            }
            trim_start_char("", '/')
        }
    } else {
        let rest = trim_start_str(req, alias);
        trim_start_char(rest.as_str(), '/')
    }
}

/// First candidate base path, from position `i` on, under which the
/// remainder file-resolves.
pub open spec fn spec_try_targets(fs: Fs, targets: Seq<String>, rem: Seq<char>, i: int) -> Option<
    Seq<char>,
>
    decreases targets.len() - i,
{
    if i < 0 || i >= targets.len() {
        None
    } else {
        let cand = if rem.len() == 0 {
            targets[i]@
        } else {
            spec_join(targets[i]@, rem)
        };
        match spec_resolve_file(fs, cand) {
            Some(r) => Some(r),
            None => spec_try_targets(fs, targets, rem, i + 1),
        }
    }
}

/// First matching alias, from position `i` on, one of whose candidates
/// resolves; a matching alias whose candidates all fail does not stop the
/// search.
pub open spec fn spec_try_aliases(
    fs: Fs,
    entries: Seq<(String, Vec<String>)>,
    req: Seq<char>,
    i: int,
) -> Option<Seq<char>>
    decreases entries.len() - i,
{
    if i < 0 || i >= entries.len() {
        None
    } else if spec_alias_matches(entries[i].0@, req) {
        match spec_try_targets(fs, entries[i].1@, spec_alias_remainder(entries[i].0@, req), 0) {
            Some(r) => Some(r),
            None => spec_try_aliases(fs, entries, req, i + 1),
        }
    } else {
        spec_try_aliases(fs, entries, req, i + 1)
    }
}

fn try_targets(fs: &Fs, targets: &Vec<String>, rem: &str) -> (r: Option<String>)
    ensures
        r.deep_view() == spec_try_targets(*fs, targets@, rem@, 0),
{
    let n = targets.len();
    let mut i: usize = 0;
    while i < n
        invariant
            0 <= i <= n,
            n == targets@.len(),
            spec_try_targets(*fs, targets@, rem@, 0) == spec_try_targets(*fs, targets@, rem@, i as int),
        decreases n - i,
    {
        let cand = if rem.unicode_len() == 0 {
            let t = &targets[i];
            t.clone()
        } else {
            join_path(targets[i].as_str(), rem)
        };
        if let Some(found) = resolve_file(fs, cand.as_str()) {
            return Some(found);
        }
        i += 1;
    }
    None
}

fn try_aliases(fs: &Fs, table: &AliasTable, req: &str) -> (r: Option<String>)
    ensures
        r.deep_view() == spec_try_aliases(*fs, table.entries@, req@, 0),
{
    let n = table.entries.len();
    let mut i: usize = 0;
    while i < n
        invariant
            0 <= i <= n,
            n == table.entries@.len(),
            spec_try_aliases(*fs, table.entries@, req@, 0) == spec_try_aliases(
                *fs,
                table.entries@,
                req@,
                i as int,
            ),
        decreases n - i,
    {
        let entry = &table.entries[i];
        if alias_matches(entry.0.as_str(), req) {
            let rem = alias_remainder(entry.0.as_str(), req);
            if let Some(found) = try_targets(fs, &entry.1, rem.as_str()) {
                return Some(found);
            }
        }
        i += 1;
    }
    None
}

/// One `exports`/`module`/`main` candidate: the string joined under the
/// package directory, with leading `./` removed when `trim` asks for it,
/// passed through file resolution.
pub open spec fn spec_field_candidate(fs: Fs, nm: Seq<char>, s: Seq<char>, trim: bool) -> Option<
    Seq<char>,
> {
    let rel = if trim {
        spec_trim_start(s, "./"@)
    } else {
        s
    };
    spec_resolve_file(fs, spec_join(nm, rel))
}

/// What the `exports` field resolves to under the package directory `nm`.
pub open spec fn spec_exports_resolve(fs: Fs, nm: Seq<char>, e: ExportsField) -> Option<Seq<char>> {
    match e {
        ExportsField::Single(s) => spec_field_candidate(fs, nm, s@, true),
        ExportsField::Table(dot) => match dot {
            Some(DotExport::Single(s)) => spec_field_candidate(fs, nm, s@, true),
            Some(DotExport::Conditions(c)) => {
                let from_import = match c.import_target {
                    Some(s) => spec_field_candidate(fs, nm, s@, true),
                    None => None,
                };
                match from_import {
                    Some(r) => Some(r),
                    None => {
                        let from_require = match c.require_target {
                            Some(s) => spec_field_candidate(fs, nm, s@, true),
                            None => None,
                        };
                        match from_require {
                            Some(r) => Some(r),
                            None => match c.default_target {
                                Some(s) => spec_field_candidate(fs, nm, s@, true),
                                None => None,
                            },
                        }
                    },
                }
            },
            None => None,
        },
    }
}

/// Manifest precedence: `exports`, then `module`, then `main`.
pub open spec fn spec_manifest_resolve(fs: Fs, nm: Seq<char>, m: PackageManifest) -> Option<
    Seq<char>,
> {
    let from_exports = match m.exports {
        Some(e) => spec_exports_resolve(fs, nm, e),
        None => None,
    };
    match from_exports {
        Some(r) => Some(r),
        None => {
            let from_module = match m.module_field {
                Some(s) => spec_field_candidate(fs, nm, s@, false),
                None => None,
            };
            match from_module {
                Some(r) => Some(r),
                None => match m.main_field {
                    Some(s) => spec_field_candidate(fs, nm, s@, false),
                    None => None,
                },
            }
        },
    }
}

/// Resolution of `pkg` inside `<dir>/node_modules`: nothing when that
/// package directory does not exist; else the manifest fields in
/// precedence order, and finally a direct index-file probe.
pub open spec fn spec_node_module(fs: Fs, dir: Seq<char>, pkg: Seq<char>) -> Option<Seq<char>> {
    let nm = spec_join(spec_join(dir, "node_modules"@), pkg);
    if !fs.spec_exists(nm) {
        None
    } else {
        let from_manifest = match fs.spec_manifest(nm) {
            Some(m) => spec_manifest_resolve(fs, nm, m),
            None => None,
        };
        match from_manifest {
            Some(r) => Some(r),
            None => spec_probe_index(fs, nm, 0),
        }
    }
}

/// A path's directory part is strictly shorter than the path.
pub proof fn lemma_dirname_shorter(p: Seq<char>)
    ensures
        match spec_dirname(p) {
            Some(d) => d.len() < p.len(),
            None => true,
        },
{
    if exists|i: int| 0 <= i < p.len() && p[i] == '/' {
        crate::strutil::lemma_exists_last(p, '/');
        let i = choose|i: int|
            0 <= i < p.len() && p[i] == '/' && forall|j: int| i < j < p.len() ==> p[j] != '/';
        assert(0 <= i < p.len());
    }
}

/// Upward walk from `dir`: try each ancestor's `node_modules`, stopping
/// after the workspace root; a directory above the root is never consulted
/// when the walk starts below it.
pub open spec fn spec_walk_up(fs: Fs, dir: Seq<char>, pkg: Seq<char>, root: Seq<char>) -> Option<
    Seq<char>,
>
    decreases dir.len(),
    via spec_walk_up_decreases
{
    match spec_node_module(fs, dir, pkg) {
        Some(r) => Some(r),
        None => {
            if dir == root {
                None
            } else {
                match spec_dirname(dir) {
                    Some(parent) => spec_walk_up(fs, parent, pkg, root),
                    None => None,
                }
            }
        },
    }
}

#[via_fn]
proof fn spec_walk_up_decreases(fs: Fs, dir: Seq<char>, pkg: Seq<char>, root: Seq<char>) {
    lemma_dirname_shorter(dir);
}

fn field_candidate(fs: &Fs, nm: &str, s: &str, trim: bool) -> (r: Option<String>)
    ensures
        r.deep_view() == spec_field_candidate(*fs, nm@, s@, trim),
{
    let cand = if trim {
        let rel = trim_start_str(s, "./");
        join_path(nm, rel.as_str())
    } else {
        join_path(nm, s)
    };
    resolve_file(fs, cand.as_str())
}

fn exports_resolve(fs: &Fs, nm: &str, e: &ExportsField) -> (r: Option<String>)
    ensures
        r.deep_view() == spec_exports_resolve(*fs, nm@, *e),
{
    match e {
        ExportsField::Single(s) => field_candidate(fs, nm, s.as_str(), true),
        ExportsField::Table(dot) => match dot {
            Some(DotExport::Single(s)) => field_candidate(fs, nm, s.as_str(), true),
            Some(DotExport::Conditions(c)) => {
                if let Some(s) = &c.import_target {
                    if let Some(found) = field_candidate(fs, nm, s.as_str(), true) {
                        return Some(found);
                    }
                }
                if let Some(s) = &c.require_target {
                    if let Some(found) = field_candidate(fs, nm, s.as_str(), true) {
                        return Some(found);
                    }
                }
                if let Some(s) = &c.default_target {
                    if let Some(found) = field_candidate(fs, nm, s.as_str(), true) {
                        return Some(found);
                    }
                }
                None
            },
            None => None,
        },
    }
}

fn manifest_resolve(fs: &Fs, nm: &str, m: &PackageManifest) -> (r: Option<String>)
    ensures
        r.deep_view() == spec_manifest_resolve(*fs, nm@, *m),
{
    if let Some(e) = &m.exports {
        if let Some(found) = exports_resolve(fs, nm, e) {
            return Some(found);
        }
    }
    if let Some(s) = &m.module_field {
        if let Some(found) = field_candidate(fs, nm, s.as_str(), false) {
            return Some(found);
        }
    }
    if let Some(s) = &m.main_field {
        if let Some(found) = field_candidate(fs, nm, s.as_str(), false) {
            return Some(found);
        }
    }
    None
}

/// Resolution of `pkg` inside one directory's `node_modules`, manifest
/// fields first, index files last.
pub(crate) fn resolve_node_module(fs: &Fs, dir: &str, pkg: &str) -> (r: Option<String>)
    ensures
        r.deep_view() == spec_node_module(*fs, dir@, pkg@),
{
    let nm0 = join_path(dir, "node_modules");
    let nm = join_path(nm0.as_str(), pkg);
    if !fs.path_exists(nm.as_str()) {
        return None;
    }
    let manifest = fs.manifest_for(nm.as_str());
    if let Some(m) = manifest {
        if let Some(found) = manifest_resolve(fs, nm.as_str(), m) {
            return Some(found);
        }
    }
    probe_index(fs, nm.as_str())
}

/// Upward `node_modules` search from `start_dir`, bounded by the
/// workspace root.
pub fn resolve_node_module_from_dir(fs: &Fs, start_dir: &str, pkg: &str, workspace_root: &str) -> (r:
    Option<String>)
    ensures
        r.deep_view() == spec_walk_up(*fs, start_dir@, pkg@, workspace_root@),
{
    let mut current = String::from_str(start_dir);
    loop
        invariant
            spec_walk_up(*fs, start_dir@, pkg@, workspace_root@) == spec_walk_up(
                *fs,
                current@,
                pkg@,
                workspace_root@,
            ),
        decreases current@.len(),
    {
        if let Some(found) = resolve_node_module(fs, current.as_str(), pkg) {
            return Some(found);
        }
        if str_eq(current.as_str(), workspace_root) {
            return None;
        }
        match dirname(current.as_str()) {
            Some(parent) => {
                proof {
                    lemma_dirname_shorter(current@);
                }
                current = parent;
            },
            None => {
                return None;
            },
        }
    }
}

/// The resolution function of the run: relative requests are joined to the
/// importing file's directory and normalized; bare requests try the alias
/// table and then the bounded `node_modules` walk.
#[verifier::opaque]
pub open spec fn spec_resolve(
    fs: Fs,
    root: Seq<char>,
    entries: Seq<(String, Vec<String>)>,
    from: Seq<char>,
    req: Seq<char>,
) -> Option<Seq<char>> {
    let base = match spec_dirname(from) {
        Some(d) => d,
        None => root,
    };
    if spec_is_relative(req) {
        spec_resolve_file(fs, spec_cleaned(spec_join(base, req)))
    } else {
        match spec_try_aliases(fs, entries, req, 0) {
            Some(r) => Some(r),
            None => spec_walk_up(fs, base, req, root),
        }
    }
}

proof fn lemma_probe_index_exists(fs: Fs, p: Seq<char>, i: int)
    ensures
        match spec_probe_index(fs, p, i) {
            Some(t) => fs.spec_exists(t),
            None => true,
        },
    decreases EXTENSION_COUNT - i,
{
    if 0 <= i < EXTENSION_COUNT {
        lemma_probe_index_exists(fs, p, i + 1);
    }
}

proof fn lemma_probe_ext_exists(fs: Fs, p: Seq<char>, i: int)
    ensures
        match spec_probe_ext(fs, p, i) {
            Some(t) => fs.spec_exists(t),
            None => true,
        },
    decreases EXTENSION_COUNT - i,
{
    if 0 <= i < EXTENSION_COUNT {
        lemma_probe_ext_exists(fs, p, i + 1);
    }
}

/// Whatever file resolution returns is a path the model knows.
pub proof fn lemma_resolve_file_exists(fs: Fs, p: Seq<char>)
    ensures
        match spec_resolve_file(fs, p) {
            Some(t) => fs.spec_exists(t),
            None => true,
        },
{
    lemma_probe_index_exists(fs, p, 0);
    lemma_probe_ext_exists(fs, p, 0);
}

proof fn lemma_try_targets_exists(fs: Fs, targets: Seq<String>, rem: Seq<char>, i: int)
    ensures
        match spec_try_targets(fs, targets, rem, i) {
            Some(t) => fs.spec_exists(t),
            None => true,
        },
    decreases targets.len() - i,
{
    if 0 <= i < targets.len() {
        let cand = if rem.len() == 0 {
            targets[i]@
        } else {
            spec_join(targets[i]@, rem)
        };
        lemma_resolve_file_exists(fs, cand);
        lemma_try_targets_exists(fs, targets, rem, i + 1);
    }
}

proof fn lemma_try_aliases_exists(
    fs: Fs,
    entries: Seq<(String, Vec<String>)>,
    req: Seq<char>,
    i: int,
)
    ensures
        match spec_try_aliases(fs, entries, req, i) {
            Some(t) => fs.spec_exists(t),
            None => true,
        },
    decreases entries.len() - i,
{
    if 0 <= i < entries.len() {
        lemma_try_targets_exists(fs, entries[i].1@, spec_alias_remainder(entries[i].0@, req), 0);
        lemma_try_aliases_exists(fs, entries, req, i + 1);
    }
}

proof fn lemma_exports_exists(fs: Fs, nm: Seq<char>, e: ExportsField)
    ensures
        match spec_exports_resolve(fs, nm, e) {
            Some(t) => fs.spec_exists(t),
            None => true,
        },
{
    match e {
        ExportsField::Single(s) => {
            lemma_resolve_file_exists(fs, spec_join(nm, spec_trim_start(s@, "./"@)));
        },
        ExportsField::Table(dot) => match dot {
            Some(DotExport::Single(s)) => {
                lemma_resolve_file_exists(fs, spec_join(nm, spec_trim_start(s@, "./"@)));
            },
            Some(DotExport::Conditions(c)) => {
                if let Some(s) = c.import_target {
                    lemma_resolve_file_exists(fs, spec_join(nm, spec_trim_start(s@, "./"@)));
                }
                if let Some(s) = c.require_target {
                    lemma_resolve_file_exists(fs, spec_join(nm, spec_trim_start(s@, "./"@)));
                }
                if let Some(s) = c.default_target {
                    lemma_resolve_file_exists(fs, spec_join(nm, spec_trim_start(s@, "./"@)));
                }
            },
            None => {},
        },
    }
}

proof fn lemma_node_module_exists(fs: Fs, dir: Seq<char>, pkg: Seq<char>)
    ensures
        match spec_node_module(fs, dir, pkg) {
            Some(t) => fs.spec_exists(t),
            None => true,
        },
{
    let nm = spec_join(spec_join(dir, "node_modules"@), pkg);
    if let Some(m) = fs.spec_manifest(nm) {
        if let Some(e) = m.exports {
            lemma_exports_exists(fs, nm, e);
        }
        if let Some(s) = m.module_field {
            lemma_resolve_file_exists(fs, spec_join(nm, s@));
        }
        if let Some(s) = m.main_field {
            lemma_resolve_file_exists(fs, spec_join(nm, s@));
        }
    }
    lemma_probe_index_exists(fs, nm, 0);
}

proof fn lemma_walk_up_exists(fs: Fs, dir: Seq<char>, pkg: Seq<char>, root: Seq<char>)
    ensures
        match spec_walk_up(fs, dir, pkg, root) {
            Some(t) => fs.spec_exists(t),
            None => true,
        },
    decreases dir.len(),
{
    lemma_node_module_exists(fs, dir, pkg);
    if spec_node_module(fs, dir, pkg) is None && dir != root {
        if let Some(parent) = spec_dirname(dir) {
            lemma_dirname_shorter(dir);
            lemma_walk_up_exists(fs, parent, pkg, root);
        }
    }
}

/// Whatever the resolver returns is a path the model knows.
pub proof fn lemma_resolve_exists(
    fs: Fs,
    root: Seq<char>,
    entries: Seq<(String, Vec<String>)>,
    from: Seq<char>,
    req: Seq<char>,
)
    ensures
        match spec_resolve(fs, root, entries, from, req) {
            Some(t) => fs.spec_exists(t),
            None => true,
        },
{
    reveal(spec_resolve);
    let base = match spec_dirname(from) {
        Some(d) => d,
        None => root,
    };
    if spec_is_relative(req) {
        lemma_resolve_file_exists(fs, spec_cleaned(spec_join(base, req)));
    } else {
        lemma_try_aliases_exists(fs, entries, req, 0);
        lemma_walk_up_exists(fs, base, req, root);
    }
}

/// Every memoized resolution equals the resolution function of the run's
/// context, and the memo is finite.
pub open spec fn resolve_cache_ok(
    fs: Fs,
    root: Seq<char>,
    entries: Seq<(String, Vec<String>)>,
    m: Map<(Seq<char>, Seq<char>), Option<Seq<char>>>,
) -> bool {
    &&& m.dom().finite()
    &&& forall|k: (Seq<char>, Seq<char>)| #[trigger]
        m.contains_key(k) ==> m[k] == spec_resolve(fs, root, entries, k.0, k.1)
}

/// Resolves `request` from `from_file`, consulting and filling the shared
/// memo: afterwards the memo holds exactly one entry for the pair, and it
/// equals the returned resolution.
pub fn resolve(
    fs: &Fs,
    root: &str,
    aliases: &AliasTable,
    from_file: &str,
    request: &str,
    cache: &mut ResolveCache,
) -> (r: Option<String>)
    requires
        resolve_cache_ok(*fs, root@, aliases.entries@, resolve_cache_view(*old(cache))),
    ensures
        r.deep_view() == spec_resolve(*fs, root@, aliases.entries@, from_file@, request@),
        resolve_cache_view(*final(cache)) =~= resolve_cache_view(*old(cache)).insert(
            (from_file@, request@),
            r.deep_view(),
        ),
        resolve_cache_ok(*fs, root@, aliases.entries@, resolve_cache_view(*final(cache))),
{
    proof {
        reveal(spec_resolve);
    }
    if let Some(hit) = cache.get(from_file, request) {
        proof {
            let m = resolve_cache_view(*cache);
            assert(m =~= m.insert((from_file@, request@), m[(from_file@, request@)]));
        }
        return hit;
    }
    let base = match dirname(from_file) {
        Some(d) => d,
        None => String::from_str(root),
    };
    let result: Option<String> = if is_relative_request(request) {
        let joined = join_path(base.as_str(), request);
        let cleaned = clean_path(joined.as_str());
        resolve_file(fs, cleaned.as_str())
    } else {
        match try_aliases(fs, aliases, request) {
            Some(found) => Some(found),
            None => resolve_node_module_from_dir(fs, base.as_str(), request, root),
        }
    };
    let stored: Option<String> = match &result {
        Some(s) => Some(s.clone()),
        None => None,
    };
    cache.insert(String::from_str(from_file), String::from_str(request), stored);
    result
}

/// For a normalized path that does not exist as such, resolution picks
/// the first extension, in priority order, whose direct append names an
/// existing file.
pub proof fn lemma_extension_priority(fs: Fs, p: Seq<char>, i: int)
    requires
        !fs.spec_exists(p),
        0 <= i < EXTENSION_COUNT,
        fs.spec_exists(spec_with_ext(p, i)),
        forall|j: int| 0 <= j < i ==> !fs.spec_exists(spec_with_ext(p, j)),
    ensures
        spec_resolve_file(fs, p) == Some(spec_with_ext(p, i)),
{
    lemma_probe_ext_stable(fs, p, 0, i);
}

/// For an existing directory that is not also a file, resolution returns
/// its first index file in the same priority order.
pub proof fn lemma_index_priority(fs: Fs, p: Seq<char>, i: int)
    requires
        fs.spec_is_dir(p),
        !fs.spec_is_file(p),
        0 <= i < EXTENSION_COUNT,
        fs.spec_exists(spec_join(p, spec_index_file(i))),
        forall|j: int| 0 <= j < i ==> !fs.spec_exists(spec_join(p, spec_index_file(j))),
    ensures
        spec_resolve_file(fs, p) == Some(spec_join(p, spec_index_file(i))),
{
    lemma_probe_index_stable(fs, p, 0, i);
}

/// A wildcard alias matches exactly the requests that carry its prefix
/// and are strictly longer than it; in particular it never matches the
/// bare prefix itself.
pub proof fn lemma_alias_wildcard(alias: Seq<char>, req: Seq<char>)
    requires
        spec_ends_with(alias, "/*"@),
    ensures
        spec_alias_matches(alias, req) == (spec_starts_with(req, spec_trim_end(alias, "/*"@))
            && req.len() > spec_trim_end(alias, "/*"@).len()),
        !spec_alias_matches(alias, spec_trim_end(alias, "/*"@)),
{
}

/// A plain alias matches exactly the requests that carry it as a literal
/// prefix, the alias itself included.
pub proof fn lemma_alias_plain(alias: Seq<char>, req: Seq<char>)
    requires
        !spec_ends_with(alias, "/*"@),
    ensures
        spec_alias_matches(alias, req) == spec_starts_with(req, alias),
        spec_alias_matches(alias, alias),
{
    assert(alias.subrange(0, alias.len() as int) =~= alias);
}

/// A directory lies at or below the root.
pub open spec fn spec_is_within(root: Seq<char>, d: Seq<char>) -> bool {
    crate::pathutil::spec_root_strips(root, d)
}

/// Stepping to the parent directory never leaves the root's subtree
/// until the root itself is reached.
pub proof fn lemma_dirname_within(root: Seq<char>, d: Seq<char>)
    requires
        spec_is_within(root, d),
        d != root,
        root.len() > 0,
        root[root.len() - 1] != '/' || root.len() == 1,
    ensures
        match spec_dirname(d) {
            Some(parent) => spec_is_within(root, parent),
            None => true,
        },
{
    if d.len() == root.len() {
        assert(d.subrange(0, root.len() as int) =~= d);
        assert(d == root);
    }
    assert(d.len() > root.len());
    assert forall|j: int| 0 <= j < root.len() implies d[j] == root[j] by {
        assert(d.subrange(0, root.len() as int)[j] == d[j]);
    }
    if root.len() == 1 && root[0] == '/' {
        assert(d[0] == '/');
        crate::strutil::lemma_exists_last(d, '/');
        if spec_dirname(d) is Some {
            let parent = spec_dirname(d)->0;
            assert(parent.len() >= 1 && parent[0] == d[0]);
            assert(parent.subrange(0, 1) =~= root);
            assert(spec_is_within(root, parent));
        }
    } else {
        assert(root[root.len() - 1] != '/');
        assert(d[root.len() - 1] == root[root.len() - 1]);
        assert(d[root.len() as int] == '/');
        crate::strutil::lemma_exists_last(d, '/');
        let i = choose|i: int|
            0 <= i < d.len() && d[i] == '/' && forall|j: int| i < j < d.len() ==> d[j] != '/';
        assert(i >= root.len()) by {
            if i < root.len() {
                assert(d[root.len() as int] != '/');
            }
        }
        assert(d.len() > 1);
        if spec_dirname(d) is Some {
            let parent = spec_dirname(d)->0;
            assert(i >= 1);
            assert(parent == d.subrange(0, i));
            assert(parent.len() == i);
            if i == root.len() {
                assert(parent =~= root) by {
                    assert forall|j: int| 0 <= j < root.len() implies parent[j] == root[j] by {
                        assert(parent[j] == d[j]);
                    }
                }
                assert(root.subrange(0, root.len() as int) =~= root);
                assert(spec_is_within(root, parent));
            } else {
                assert(parent.subrange(0, root.len() as int) =~= root) by {
                    assert forall|j: int| 0 <= j < root.len() implies parent.subrange(
                        0,
                        root.len() as int,
                    )[j] == root[j] by {
                        assert(parent[j] == d[j]);
                    }
                }
                assert(parent[root.len() as int] == d[root.len() as int]);
                assert(spec_is_within(root, parent));
            }
        }
    }
}

/// The directories an upward walk from `dir` can consult, in order:
/// `dir` itself, then each parent, stopping at the workspace root.
pub open spec fn spec_walk_chain(dir: Seq<char>, root: Seq<char>) -> Seq<Seq<char>>
    decreases dir.len(),
    via spec_walk_chain_decreases
{
    seq![dir] + (if dir == root {
        Seq::empty()
    } else {
        match spec_dirname(dir) {
            Some(parent) => spec_walk_chain(parent, root),
            None => Seq::empty(),
        }
    })
}

#[via_fn]
proof fn spec_walk_chain_decreases(dir: Seq<char>, root: Seq<char>) {
    lemma_dirname_shorter(dir);
}

/// Any package the walk finds was found at one of the chain's
/// directories: the walk consults nothing else.
pub proof fn lemma_walk_up_on_chain(fs: Fs, dir: Seq<char>, pkg: Seq<char>, root: Seq<char>)
    ensures
        match spec_walk_up(fs, dir, pkg, root) {
            Some(t) => exists|i: int|
                0 <= i < spec_walk_chain(dir, root).len() && spec_node_module(
                    fs,
                    #[trigger] spec_walk_chain(dir, root)[i],
                    pkg,
                ) == Some(t),
            None => true,
        },
    decreases dir.len(),
{
    let chain = spec_walk_chain(dir, root);
    assert(chain[0] == dir);
    if spec_node_module(fs, dir, pkg) is Some {
    } else if dir != root {
        if let Some(parent) = spec_dirname(dir) {
            lemma_dirname_shorter(dir);
            lemma_walk_up_on_chain(fs, parent, pkg, root);
            if let Some(t) = spec_walk_up(fs, parent, pkg, root) {
                let sub = spec_walk_chain(parent, root);
                let i = choose|i: int|
                    0 <= i < sub.len() && spec_node_module(fs, sub[i], pkg) == Some(t);
                assert(chain[i + 1] == sub[i]);
            }
        }
    }
}

/// The upward package search never consults a directory above the
/// workspace root: starting inside the root's subtree, every directory of
/// the walk's chain lies inside it, the root itself last.
pub proof fn lemma_walk_bounded(dir: Seq<char>, root: Seq<char>)
    requires
        spec_is_within(root, dir),
        root.len() > 0,
        root[root.len() - 1] != '/' || root.len() == 1,
    ensures
        forall|i: int|
            0 <= i < spec_walk_chain(dir, root).len() ==> spec_is_within(
                root,
                #[trigger] spec_walk_chain(dir, root)[i],
            ),
    decreases dir.len(),
{
    let chain = spec_walk_chain(dir, root);
    if dir != root {
        lemma_dirname_within(root, dir);
        if let Some(parent) = spec_dirname(dir) {
            lemma_dirname_shorter(dir);
            lemma_walk_bounded(parent, root);
            let sub = spec_walk_chain(parent, root);
            assert forall|i: int| 0 <= i < chain.len() implies spec_is_within(
                root,
                #[trigger] chain[i],
            ) by {
                if i >= 1 {
                    assert(chain[i] == sub[i - 1]);
                }
            }
        }
    }
}

/// A scoped package name is one opaque path segment: the only directory
/// probed for it at one level is `<dir>/node_modules/<name>` as a whole,
/// so when that directory does not exist the level yields nothing.
pub proof fn lemma_scoped_name_opaque(fs: Fs, dir: Seq<char>, pkg: Seq<char>)
    requires
        !fs.spec_exists(spec_join(spec_join(dir, "node_modules"@), pkg)),
    ensures
        spec_node_module(fs, dir, pkg) is None,
{
}

/// Every task that consults the shared resolution memo under one run's
/// context observes the same resolution for a pair, and the memo holds
/// exactly one entry for it: the map is keyed, and each entry equals the
/// run's resolution function.
pub proof fn lemma_resolution_agreement(
    fs: Fs,
    root: Seq<char>,
    entries: Seq<(String, Vec<String>)>,
    m: Map<(Seq<char>, Seq<char>), Option<Seq<char>>>,
    from: Seq<char>,
    req: Seq<char>,
)
    requires
        resolve_cache_ok(fs, root, entries, m),
        m.contains_key((from, req)),
    ensures
        m[(from, req)] == spec_resolve(fs, root, entries, from, req),
{
}

} // verus!
