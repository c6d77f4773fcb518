//! Import-depth analysis: the longest chain of imports from a file,
//! truncated at back edges, memoized in the shared depth table.
//!
//! The depth of a file with no resolvable imports is zero; otherwise it is
//! one more than the greatest depth of its resolved imports, where an
//! import whose target is currently being computed (a back edge)
//! contributes zero for the edge and is not descended into. The memo and
//! the transient marker set make the result depend on traversal order;
//! the specification pins that order by threading both through a
//! functional mirror of the computation.

use vstd::prelude::*;
use vstd::string::StringExecFns;
use crate::caches::{
    DepthCache, ImportCache, ResolveCache, depth_cache_view, import_cache_view, resolve_cache_view,
};
use crate::fsmodel::Fs;
use crate::parser::{SourceStore, import_cache_ok, imports_for, spec_imports, spec_module_lookup};
use crate::resolver::{AliasTable, resolve, resolve_cache_ok, spec_resolve};
use crate::strutil::vec_contains_string;
use crate::types::SpecifierModel;

verus! {

/// Every file the run holds a source for is a path the filesystem model
/// knows; the application establishes this when it fills the two.
pub open spec fn store_wf(fs: Fs, store: SourceStore) -> bool {
    forall|k: Seq<char>|
        (#[trigger] spec_module_lookup(store.modules@, k)) is Some ==> fs.spec_exists(k)
}

/// One more, saturating at the type's top.
pub open spec fn spec_sat_inc(d: usize) -> usize {
    if d == usize::MAX {
        usize::MAX
    } else {
        (d + 1) as usize
    }
}

/// The depth of `file` given the memo and the transient marker set, paired
/// with the memo as the computation leaves it: a memoized file answers
/// from the memo; a file currently being computed contributes zero and is
/// not memoized; otherwise the imports are folded in order and the result
/// is memoized.
pub open spec fn spec_depth_file(
    fs: Fs,
    root: Seq<char>,
    entries: Seq<(String, Vec<String>)>,
    store: SourceStore,
    file: Seq<char>,
    memo: Map<Seq<char>, usize>,
    vis: Set<Seq<char>>,
) -> (usize, Map<Seq<char>, usize>)
    decreases fs.spec_universe().difference(vis).len(), 0int, 0int,
    via spec_depth_file_decreases
{
    if memo.contains_key(file) {
        (memo[file], memo)
    } else if vis.contains(file) {
        (0, memo)
    } else if !fs.spec_universe().contains(file) {
        (0, memo.insert(file, 0))
    } else {
        match spec_imports(store, file) {
            None => (0, memo.insert(file, 0)),
            Some(specs) => {
                if specs.len() == 0 {
                    (0, memo.insert(file, 0))
                } else {
                    let folded = spec_depth_list(
                        fs,
                        root,
                        entries,
                        store,
                        file,
                        specs,
                        0,
                        memo,
                        vis.insert(file),
                    );
                    (folded.0, folded.1.insert(file, folded.0))
                }
            },
        }
    }
}

/// The fold over a file's specifiers from position `i` on: the greatest
/// saturated successor depth, threading the memo left to right. An import
/// whose target is currently being computed is a back edge and
/// contributes nothing to the maximum.
pub open spec fn spec_depth_list(
    fs: Fs,
    root: Seq<char>,
    entries: Seq<(String, Vec<String>)>,
    store: SourceStore,
    file: Seq<char>,
    specs: Seq<SpecifierModel>,
    i: int,
    memo: Map<Seq<char>, usize>,
    vis: Set<Seq<char>>,
) -> (usize, Map<Seq<char>, usize>)
    decreases fs.spec_universe().difference(vis).len(), 1int, specs.len() - i,
{
    if i < 0 || i >= specs.len() {
        (0, memo)
    } else {
        match spec_resolve(fs, root, entries, file, specs[i].request) {
            None => spec_depth_list(fs, root, entries, store, file, specs, i + 1, memo, vis),
            Some(child) => {
                if vis.contains(child) {
                    spec_depth_list(fs, root, entries, store, file, specs, i + 1, memo, vis)
                } else {
                    let first = spec_depth_file(fs, root, entries, store, child, memo, vis);
                    let rest = spec_depth_list(
                        fs,
                        root,
                        entries,
                        store,
                        file,
                        specs,
                        i + 1,
                        first.1,
                        vis,
                    );
                    let through = spec_sat_inc(first.0);
                    (
                        if through > rest.0 {
                            through
                        } else {
                            rest.0
                        },
                        rest.1,
                    )
                }
            },
        }
    }
}

/// The files whose imports a depth computation extracts: the freshly
/// memoized files the run holds sources for.
pub open spec fn spec_newly_parsed(
    store: SourceStore,
    m0: Map<Seq<char>, usize>,
    m1: Map<Seq<char>, usize>,
) -> Set<Seq<char>> {
    Set::new(
        |x: Seq<char>|
            m1.contains_key(x) && !m0.contains_key(x) && spec_module_lookup(store.modules@, x)
                is Some,
    )
}

/// The contribution of a file's own import extraction to the memo of
/// parsed files: the file itself when the run holds its source.
pub open spec fn spec_self_parsed(store: SourceStore, f: Seq<char>) -> Set<Seq<char>> {
    if spec_module_lookup(store.modules@, f) is Some {
        Set::<Seq<char>>::empty().insert(f)
    } else {
        Set::<Seq<char>>::empty()
    }
}

/// The depth memo only grows: every memoized file stays memoized.
pub proof fn lemma_depth_memo_grows_file(
    fs: Fs,
    root: Seq<char>,
    entries: Seq<(String, Vec<String>)>,
    store: SourceStore,
    file: Seq<char>,
    memo: Map<Seq<char>, usize>,
    vis: Set<Seq<char>>,
)
    ensures
        forall|k: Seq<char>| #[trigger]
            memo.contains_key(k) ==> spec_depth_file(
                fs,
                root,
                entries,
                store,
                file,
                memo,
                vis,
            ).1.contains_key(k),
    decreases fs.spec_universe().difference(vis).len(), 0int, 0int,
{
    if !memo.contains_key(file) && !vis.contains(file) && fs.spec_universe().contains(file) {
        fs.lemma_universe();
        fs.spec_universe().lemma_set_insert_diff_decreases(vis, file);
        match spec_imports(store, file) {
            None => {},
            Some(specs) => {
                if specs.len() > 0 {
                    lemma_depth_memo_grows_list(
                        fs,
                        root,
                        entries,
                        store,
                        file,
                        specs,
                        0,
                        memo,
                        vis.insert(file),
                    );
                }
            },
        }
    }
}

pub proof fn lemma_depth_memo_grows_list(
    fs: Fs,
    root: Seq<char>,
    entries: Seq<(String, Vec<String>)>,
    store: SourceStore,
    file: Seq<char>,
    specs: Seq<SpecifierModel>,
    i: int,
    memo: Map<Seq<char>, usize>,
    vis: Set<Seq<char>>,
)
    ensures
        forall|k: Seq<char>| #[trigger]
            memo.contains_key(k) ==> spec_depth_list(
                fs,
                root,
                entries,
                store,
                file,
                specs,
                i,
                memo,
                vis,
            ).1.contains_key(k),
    decreases fs.spec_universe().difference(vis).len(), 1int, specs.len() - i,
{
    if 0 <= i < specs.len() {
        match spec_resolve(fs, root, entries, file, specs[i].request) {
            None => {
                lemma_depth_memo_grows_list(fs, root, entries, store, file, specs, i + 1, memo, vis);
            },
            Some(child) => {
                if vis.contains(child) {
                    lemma_depth_memo_grows_list(
                        fs,
                        root,
                        entries,
                        store,
                        file,
                        specs,
                        i + 1,
                        memo,
                        vis,
                    );
                } else {
                    lemma_depth_memo_grows_file(fs, root, entries, store, child, memo, vis);
                    let first = spec_depth_file(fs, root, entries, store, child, memo, vis);
                    lemma_depth_memo_grows_list(
                        fs,
                        root,
                        entries,
                        store,
                        file,
                        specs,
                        i + 1,
                        first.1,
                        vis,
                    );
                }
            },
        }
    }
}

/// Fresh memo entries split at an intermediate memo.
proof fn lemma_newly_split(
    store: SourceStore,
    m0: Map<Seq<char>, usize>,
    m1: Map<Seq<char>, usize>,
    m2: Map<Seq<char>, usize>,
)
    requires
        forall|k: Seq<char>| #[trigger] m0.contains_key(k) ==> m1.contains_key(k),
        forall|k: Seq<char>| #[trigger] m1.contains_key(k) ==> m2.contains_key(k),
    ensures
        spec_newly_parsed(store, m0, m2) =~= spec_newly_parsed(store, m0, m1).union(
            spec_newly_parsed(store, m1, m2),
        ),
{
}

#[via_fn]
proof fn spec_depth_file_decreases(
    fs: Fs,
    root: Seq<char>,
    entries: Seq<(String, Vec<String>)>,
    store: SourceStore,
    file: Seq<char>,
    memo: Map<Seq<char>, usize>,
    vis: Set<Seq<char>>,
) {
    fs.lemma_universe();
    if !memo.contains_key(file) && !vis.contains(file) && fs.spec_universe().contains(file) {
        fs.spec_universe().lemma_set_insert_diff_decreases(vis, file);
    }
}

/// The recursive depth computation: memo first, then the back-edge guard,
/// then the ordered fold over resolved imports, with the transient marker
/// held across the recursion and removed afterwards.
pub fn compute_depth_internal(
    fs: &Fs,
    root: &str,
    aliases: &AliasTable,
    store: &SourceStore,
    file: &str,
    import_cache: &mut ImportCache,
    resolve_cache: &mut ResolveCache,
    depth_cache: &mut DepthCache,
    visiting: &mut Vec<String>,
) -> (d: usize)
    requires
        store_wf(*fs, *store),
        import_cache_ok(*store, import_cache_view(*old(import_cache))),
        resolve_cache_ok(*fs, root@, aliases.entries@, resolve_cache_view(*old(resolve_cache))),
    ensures
        d == spec_depth_file(
            *fs,
            root@,
            aliases.entries@,
            *store,
            file@,
            depth_cache_view(*old(depth_cache)),
            old(visiting).deep_view().to_set(),
        ).0,
        depth_cache_view(*final(depth_cache)) == spec_depth_file(
            *fs,
            root@,
            aliases.entries@,
            *store,
            file@,
            depth_cache_view(*old(depth_cache)),
            old(visiting).deep_view().to_set(),
        ).1,
        final(visiting).deep_view() == old(visiting).deep_view(),
        import_cache_ok(*store, import_cache_view(*final(import_cache))),
        resolve_cache_ok(*fs, root@, aliases.entries@, resolve_cache_view(*final(resolve_cache))),
        forall|k: Seq<char>| #[trigger]
            depth_cache_view(*old(depth_cache)).contains_key(k) ==> depth_cache_view(
                *final(depth_cache),
            ).contains_key(k),
        import_cache_view(*final(import_cache)).dom() =~= import_cache_view(
            *old(import_cache),
        ).dom().union(
            spec_newly_parsed(
                *store,
                depth_cache_view(*old(depth_cache)),
                depth_cache_view(*final(depth_cache)),
            ),
        ),
    decreases fs.spec_universe().difference(old(visiting).deep_view().to_set()).len(),
{
    let ghost gfs = *fs;
    let ghost groot = root@;
    let ghost gentries = aliases.entries@;
    let ghost gstore = *store;
    let ghost m0 = depth_cache_view(*depth_cache);
    let ghost ic0 = import_cache_view(*import_cache).dom();
    let ghost vis0 = visiting.deep_view().to_set();
    if let Some(hit) = depth_cache.get(file) {
        proof {
            assert(spec_newly_parsed(gstore, m0, m0) =~= Set::<Seq<char>>::empty());
            assert(import_cache_view(*import_cache).dom() =~= ic0.union(
                spec_newly_parsed(gstore, m0, m0),
            ));
        }
        return hit;
    }
    if vec_contains_string(visiting, file) {
        proof {
            assert(spec_newly_parsed(gstore, m0, m0) =~= Set::<Seq<char>>::empty());
            assert(import_cache_view(*import_cache).dom() =~= ic0.union(
                spec_newly_parsed(gstore, m0, m0),
            ));
        }
        return 0;
    }
    let specs_opt = imports_for(file, store, import_cache);
    let specs = match specs_opt {
        None => {
            proof {
                gfs.lemma_universe();
                assert(spec_newly_parsed(gstore, m0, m0.insert(file@, 0)) =~= Set::<
                    Seq<char>,
                >::empty());
                assert(import_cache_view(*import_cache).dom() =~= ic0.union(
                    spec_newly_parsed(gstore, m0, m0.insert(file@, 0)),
                ));
            }
            depth_cache.insert(String::from_str(file), 0);
            return 0;
        },
        Some(specs) => specs,
    };
    if specs.len() == 0 {
        proof {
            gfs.lemma_universe();
            assert(spec_newly_parsed(gstore, m0, m0.insert(file@, 0)) =~= Set::<
                Seq<char>,
            >::empty().insert(file@));
            assert(import_cache_view(*import_cache).dom() =~= ic0.union(
                spec_newly_parsed(gstore, m0, m0.insert(file@, 0)),
            ));
        }
        depth_cache.insert(String::from_str(file), 0);
        return 0;
    }
    proof {
        gfs.lemma_universe();
        assert(gfs.spec_universe().contains(file@));
        gfs.spec_universe().lemma_set_insert_diff_decreases(vis0, file@);
    }
    let ghost vpre = visiting.deep_view();
    visiting.push(String::from_str(file));
    let ghost vis1 = vis0.insert(file@);
    proof {
        assert(visiting.deep_view().len() == vpre.len() + 1);
        let ghost pn = vpre.len() as int;
        assert(visiting.deep_view()[pn] == visiting@[pn]@);
        assert forall|k: int| 0 <= k < vpre.len() implies visiting.deep_view()[k] == vpre[k] by {
            assert(visiting.deep_view()[k] == visiting@[k]@);
        }
        assert(visiting.deep_view() =~= vpre.push(file@));
        assert forall|x: Seq<char>| #![auto] visiting.deep_view().to_set().contains(x)
            <==> vis1.contains(x) by {
            if visiting.deep_view().contains(x) {
                let k = choose|k: int|
                    0 <= k < visiting.deep_view().len() && visiting.deep_view()[k] == x;
                if k < vpre.len() {
                    assert(vpre[k] == x);
                }
            }
            if vpre.contains(x) {
                let k = choose|k: int| 0 <= k < vpre.len() && vpre[k] == x;
                assert(visiting.deep_view()[k] == x);
            }
            if x == file@ {
                assert(visiting.deep_view()[vpre.len() as int] == x);
            }
        }
        assert(visiting.deep_view().to_set() =~= vis1);
        assert(spec_newly_parsed(gstore, m0, m0) =~= Set::<Seq<char>>::empty());
        assert(import_cache_view(*import_cache).dom() =~= ic0.union(
            spec_newly_parsed(gstore, m0, m0),
        ).union(Set::<Seq<char>>::empty().insert(file@)));
    }
    let ghost gspecs = specs.deep_view();
    let n = specs.len();
    let mut maxd: usize = 0;
    let mut i: usize = 0;
    #[verifier::loop_isolation(false)]
    while i < n
        invariant
            0 <= i <= n,
            n == gspecs.len(),
            specs.deep_view() == gspecs,
            visiting.deep_view() == vpre.push(file@),
            visiting.deep_view().to_set() == vis1,
            import_cache_ok(gstore, import_cache_view(*import_cache)),
            resolve_cache_ok(gfs, groot, gentries, resolve_cache_view(*resolve_cache)),
            forall|k: Seq<char>| #[trigger]
                m0.contains_key(k) ==> depth_cache_view(*depth_cache).contains_key(k),
            import_cache_view(*import_cache).dom() =~= ic0.union(
                spec_newly_parsed(gstore, m0, depth_cache_view(*depth_cache)),
            ).union(Set::<Seq<char>>::empty().insert(file@)),
            spec_depth_list(gfs, groot, gentries, gstore, file@, gspecs, 0, m0, vis1).0 == ({
                let cont = spec_depth_list(
                    gfs,
                    groot,
                    gentries,
                    gstore,
                    file@,
                    gspecs,
                    i as int,
                    depth_cache_view(*depth_cache),
                    vis1,
                );
                if maxd > cont.0 {
                    maxd
                } else {
                    cont.0
                }
            }),
            spec_depth_list(gfs, groot, gentries, gstore, file@, gspecs, 0, m0, vis1).1
                == spec_depth_list(
                gfs,
                groot,
                gentries,
                gstore,
                file@,
                gspecs,
                i as int,
                depth_cache_view(*depth_cache),
                vis1,
            ).1,
        decreases n - i,
    {
        let s = &specs[i];
        proof {
            assert(gspecs[i as int].request == s@.request);
        }
        let resolved = resolve(fs, root, aliases, file, s.request.as_str(), resolve_cache);
        if let Some(child) = resolved {
            if !vec_contains_string(visiting, child.as_str()) {
                let ghost mpre = depth_cache_view(*depth_cache);
                let cd = compute_depth_internal(
                    fs,
                    root,
                    aliases,
                    store,
                    child.as_str(),
                    import_cache,
                    resolve_cache,
                    depth_cache,
                    visiting,
                );
                proof {
                    lemma_newly_split(gstore, m0, mpre, depth_cache_view(*depth_cache));
                    assert(import_cache_view(*import_cache).dom() =~= ic0.union(
                        spec_newly_parsed(gstore, m0, depth_cache_view(*depth_cache)),
                    ).union(Set::<Seq<char>>::empty().insert(file@)));
                }
                let through = if cd == usize::MAX {
                    usize::MAX
                } else {
                    cd + 1
                };
                if through > maxd {
                    maxd = through;
                }
            }
        }
        i += 1;
    }
    let _ = visiting.pop();
    proof {
        assert(visiting.deep_view() =~= vpre.push(file@).drop_last());
        assert(vpre.push(file@).drop_last() =~= vpre);
        assert(spec_depth_list(gfs, groot, gentries, gstore, file@, gspecs, n as int,
            depth_cache_view(*depth_cache), vis1).0 == 0);
        assert(spec_newly_parsed(gstore, m0, depth_cache_view(*depth_cache).insert(file@, maxd))
            =~= spec_newly_parsed(gstore, m0, depth_cache_view(*depth_cache)).union(Set::<
            Seq<char>,
        >::empty().insert(file@)));
    }
    depth_cache.insert(String::from_str(file), maxd);
    maxd
}

/// The maximum import depth from `start`, with a fresh transient marker
/// set and the shared memo.
pub fn compute_depth(
    fs: &Fs,
    root: &str,
    aliases: &AliasTable,
    store: &SourceStore,
    start: &str,
    import_cache: &mut ImportCache,
    resolve_cache: &mut ResolveCache,
    depth_cache: &mut DepthCache,
) -> (d: usize)
    requires
        store_wf(*fs, *store),
        import_cache_ok(*store, import_cache_view(*old(import_cache))),
        resolve_cache_ok(*fs, root@, aliases.entries@, resolve_cache_view(*old(resolve_cache))),
    ensures
        d == spec_depth_file(
            *fs,
            root@,
            aliases.entries@,
            *store,
            start@,
            depth_cache_view(*old(depth_cache)),
            Set::empty(),
        ).0,
        depth_cache_view(*final(depth_cache)) == spec_depth_file(
            *fs,
            root@,
            aliases.entries@,
            *store,
            start@,
            depth_cache_view(*old(depth_cache)),
            Set::empty(),
        ).1,
        import_cache_ok(*store, import_cache_view(*final(import_cache))),
        resolve_cache_ok(*fs, root@, aliases.entries@, resolve_cache_view(*final(resolve_cache))),
        forall|k: Seq<char>| #[trigger]
            depth_cache_view(*old(depth_cache)).contains_key(k) ==> depth_cache_view(
                *final(depth_cache),
            ).contains_key(k),
        import_cache_view(*final(import_cache)).dom() =~= import_cache_view(
            *old(import_cache),
        ).dom().union(
            spec_newly_parsed(
                *store,
                depth_cache_view(*old(depth_cache)),
                depth_cache_view(*final(depth_cache)),
            ),
        ),
{
    let mut visiting: Vec<String> = Vec::new();
    proof {
        assert(visiting.deep_view() =~= Seq::<Seq<char>>::empty());
        assert(visiting.deep_view().to_set() =~= Set::<Seq<char>>::empty());
    }
    compute_depth_internal(
        fs,
        root,
        aliases,
        store,
        start,
        import_cache,
        resolve_cache,
        depth_cache,
        &mut visiting,
    )
}

/// The per-import depth rows of one file, in specifier order, skipping
/// unresolved requests, threading the shared memo left to right.
pub open spec fn spec_import_depth_rows(
    fs: Fs,
    root: Seq<char>,
    entries: Seq<(String, Vec<String>)>,
    store: SourceStore,
    from: Seq<char>,
    specs: Seq<SpecifierModel>,
    i: int,
    memo: Map<Seq<char>, usize>,
) -> (Seq<(Seq<char>, Option<Seq<char>>, usize)>, Map<Seq<char>, usize>)
    decreases specs.len() - i,
{
    if i < 0 || i >= specs.len() {
        (Seq::empty(), memo)
    } else {
        match spec_resolve(fs, root, entries, from, specs[i].request) {
            None => spec_import_depth_rows(fs, root, entries, store, from, specs, i + 1, memo),
            Some(t) => {
                let first = spec_depth_file(fs, root, entries, store, t, memo, Set::empty());
                let rest = spec_import_depth_rows(
                    fs,
                    root,
                    entries,
                    store,
                    from,
                    specs,
                    i + 1,
                    first.1,
                );
                (
                    seq![(specs[i].request, Some(t), spec_sat_inc(first.0))] + rest.0,
                    rest.1,
                )
            },
        }
    }
}

/// What `compute_import_depths` reports for a file: one row per resolved
/// direct import, or nothing for a file without a source.
pub open spec fn spec_import_depths(
    fs: Fs,
    root: Seq<char>,
    entries: Seq<(String, Vec<String>)>,
    store: SourceStore,
    from: Seq<char>,
    memo: Map<Seq<char>, usize>,
) -> (Seq<(Seq<char>, Option<Seq<char>>, usize)>, Map<Seq<char>, usize>) {
    match spec_imports(store, from) {
        None => (Seq::empty(), memo),
        Some(specs) => spec_import_depth_rows(fs, root, entries, store, from, specs, 0, memo),
    }
}

/// For each direct import of `from_file`: its request, its resolution and
/// one more than the resolved module's depth, skipping unresolved requests.
pub fn compute_import_depths(
    fs: &Fs,
    root: &str,
    aliases: &AliasTable,
    store: &SourceStore,
    from_file: &str,
    import_cache: &mut ImportCache,
    resolve_cache: &mut ResolveCache,
    depth_cache: &mut DepthCache,
) -> (r: Vec<(String, Option<String>, usize)>)
    requires
        store_wf(*fs, *store),
        import_cache_ok(*store, import_cache_view(*old(import_cache))),
        resolve_cache_ok(*fs, root@, aliases.entries@, resolve_cache_view(*old(resolve_cache))),
    ensures
        r.deep_view() == spec_import_depths(
            *fs,
            root@,
            aliases.entries@,
            *store,
            from_file@,
            depth_cache_view(*old(depth_cache)),
        ).0,
        depth_cache_view(*final(depth_cache)) == spec_import_depths(
            *fs,
            root@,
            aliases.entries@,
            *store,
            from_file@,
            depth_cache_view(*old(depth_cache)),
        ).1,
        import_cache_ok(*store, import_cache_view(*final(import_cache))),
        resolve_cache_ok(*fs, root@, aliases.entries@, resolve_cache_view(*final(resolve_cache))),
        forall|k: Seq<char>| #[trigger]
            depth_cache_view(*old(depth_cache)).contains_key(k) ==> depth_cache_view(
                *final(depth_cache),
            ).contains_key(k),
        import_cache_view(*final(import_cache)).dom() =~= import_cache_view(
            *old(import_cache),
        ).dom().union(
            spec_newly_parsed(
                *store,
                depth_cache_view(*old(depth_cache)),
                depth_cache_view(*final(depth_cache)),
            ),
        ).union(spec_self_parsed(*store, from_file@)),
{
    let ghost gfs = *fs;
    let ghost groot = root@;
    let ghost gentries = aliases.entries@;
    let ghost gstore = *store;
    let ghost m0 = depth_cache_view(*depth_cache);
    let ghost ic0 = import_cache_view(*import_cache).dom();
    let mut results: Vec<(String, Option<String>, usize)> = Vec::new();
    let specs = match imports_for(from_file, store, import_cache) {
        None => {
            proof {
                assert(results.deep_view() =~= Seq::<(Seq<char>, Option<Seq<char>>, usize)>::empty());
                assert(spec_newly_parsed(gstore, m0, m0) =~= Set::<Seq<char>>::empty());
                assert(import_cache_view(*import_cache).dom() =~= ic0.union(
                    spec_newly_parsed(gstore, m0, m0),
                ).union(spec_self_parsed(gstore, from_file@)));
            }
            return results;
        },
        Some(specs) => specs,
    };
    let ghost gspecs = specs.deep_view();
    let n = specs.len();
    let mut i: usize = 0;
    proof {
        assert(results.deep_view() =~= Seq::<(Seq<char>, Option<Seq<char>>, usize)>::empty());
        assert(spec_newly_parsed(gstore, m0, m0) =~= Set::<Seq<char>>::empty());
        assert(import_cache_view(*import_cache).dom() =~= ic0.union(
            spec_newly_parsed(gstore, m0, m0),
        ).union(spec_self_parsed(gstore, from_file@)));
    }
    #[verifier::loop_isolation(false)]
    while i < n
        invariant
            0 <= i <= n,
            n == gspecs.len(),
            specs.deep_view() == gspecs,
            import_cache_ok(gstore, import_cache_view(*import_cache)),
            resolve_cache_ok(gfs, groot, gentries, resolve_cache_view(*resolve_cache)),
            forall|k: Seq<char>| #[trigger]
                m0.contains_key(k) ==> depth_cache_view(*depth_cache).contains_key(k),
            import_cache_view(*import_cache).dom() =~= ic0.union(
                spec_newly_parsed(gstore, m0, depth_cache_view(*depth_cache)),
            ).union(spec_self_parsed(gstore, from_file@)),
            spec_import_depth_rows(gfs, groot, gentries, gstore, from_file@, gspecs, 0, m0).0
                == results.deep_view() + spec_import_depth_rows(
                gfs,
                groot,
                gentries,
                gstore,
                from_file@,
                gspecs,
                i as int,
                depth_cache_view(*depth_cache),
            ).0,
            spec_import_depth_rows(gfs, groot, gentries, gstore, from_file@, gspecs, 0, m0).1
                == spec_import_depth_rows(
                gfs,
                groot,
                gentries,
                gstore,
                from_file@,
                gspecs,
                i as int,
                depth_cache_view(*depth_cache),
            ).1,
        decreases n - i,
    {
        let s = &specs[i];
        proof {
            assert(gspecs[i as int].request == s@.request);
        }
        let resolved = resolve(fs, root, aliases, from_file, s.request.as_str(), resolve_cache);
        if let Some(t) = resolved {
            let ghost gt = t@;
            let ghost mpre = depth_cache_view(*depth_cache);
            let depth = compute_depth(
                fs,
                root,
                aliases,
                store,
                t.as_str(),
                import_cache,
                resolve_cache,
                depth_cache,
            );
            proof {
                lemma_newly_split(gstore, m0, mpre, depth_cache_view(*depth_cache));
                assert(import_cache_view(*import_cache).dom() =~= ic0.union(
                    spec_newly_parsed(gstore, m0, depth_cache_view(*depth_cache)),
                ).union(spec_self_parsed(gstore, from_file@)));
            }
            let import_depth = if depth == usize::MAX {
                usize::MAX
            } else {
                depth + 1
            };
            let ghost rpre = results.deep_view();
            results.push((s.request.clone(), Some(t), import_depth));
            proof {
                assert(results.deep_view().len() == rpre.len() + 1);
                let ghost pn = rpre.len() as int;
                assert(results.deep_view()[pn] == results@[pn].deep_view());
                assert forall|k: int| 0 <= k < rpre.len() implies results.deep_view()[k] == rpre[k]
                    by {
                    assert(results.deep_view()[k] == results@[k].deep_view());
                }
                assert(results.deep_view() =~= rpre.push((s@.request, Some(gt), import_depth)));
                assert(rpre + (seq![(gspecs[i as int].request, Some(gt), spec_sat_inc(depth))]
                    + spec_import_depth_rows(
                    gfs,
                    groot,
                    gentries,
                    gstore,
                    from_file@,
                    gspecs,
                    i + 1,
                    depth_cache_view(*depth_cache),
                ).0) =~= results.deep_view() + spec_import_depth_rows(
                    gfs,
                    groot,
                    gentries,
                    gstore,
                    from_file@,
                    gspecs,
                    i + 1,
                    depth_cache_view(*depth_cache),
                ).0);
            }
        }
        i += 1;
    }
    proof {
        assert(spec_import_depth_rows(
            gfs,
            groot,
            gentries,
            gstore,
            from_file@,
            gspecs,
            n as int,
            depth_cache_view(*depth_cache),
        ).0 =~= Seq::<(Seq<char>, Option<Seq<char>>, usize)>::empty());
        assert(results.deep_view() + Seq::<(Seq<char>, Option<Seq<char>>, usize)>::empty()
            =~= results.deep_view());
    }
    results
}

/// A module whose single specifier resolves to the given target.
pub open spec fn spec_single_edge(
    fs: Fs,
    root: Seq<char>,
    entries: Seq<(String, Vec<String>)>,
    store: SourceStore,
    from: Seq<char>,
    to: Seq<char>,
) -> bool {
    &&& fs.spec_universe().contains(from)
    &&& match spec_imports(store, from) {
        Some(specs) => specs.len() == 1 && spec_resolve(fs, root, entries, from, specs[0].request)
            == Some(to),
        None => false,
    }
}

/// On the cycle `entry -> a -> b -> c -> a` of four distinct modules the
/// depth computation terminates and the back edge contributes nothing:
/// the entry's depth is 3, strictly below the four distinct modules of
/// the cycle, where the naive recursion would not return.
pub proof fn lemma_depth_cycle_truncates(
    fs: Fs,
    root: Seq<char>,
    entries: Seq<(String, Vec<String>)>,
    store: SourceStore,
    e: Seq<char>,
    a: Seq<char>,
    b: Seq<char>,
    c: Seq<char>,
)
    requires
        e != a && e != b && e != c && a != b && a != c && b != c,
        spec_single_edge(fs, root, entries, store, e, a),
        spec_single_edge(fs, root, entries, store, a, b),
        spec_single_edge(fs, root, entries, store, b, c),
        spec_single_edge(fs, root, entries, store, c, a),
    ensures
        spec_depth_file(fs, root, entries, store, e, Map::empty(), Set::empty()).0 == 3,
{
    let m0 = Map::<Seq<char>, usize>::empty();
    let v0 = Set::<Seq<char>>::empty();
    let v1 = v0.insert(e);
    let v2 = v1.insert(a);
    let v3 = v2.insert(b);
    let v4 = v3.insert(c);
    let se = spec_imports(store, e)->0;
    let sa = spec_imports(store, a)->0;
    let sb = spec_imports(store, b)->0;
    let sc = spec_imports(store, c)->0;
    assert(v4.contains(a));
    let lc = spec_depth_list(fs, root, entries, store, c, sc, 0, m0, v4);
    assert(spec_depth_list(fs, root, entries, store, c, sc, 1, m0, v4) == (0usize, m0));
    assert(lc == (0usize, m0));
    let dc = spec_depth_file(fs, root, entries, store, c, m0, v3);
    let mc = m0.insert(c, 0);
    assert(dc == (0usize, mc));
    let lb = spec_depth_list(fs, root, entries, store, b, sb, 0, m0, v3);
    assert(spec_depth_list(fs, root, entries, store, b, sb, 1, mc, v3) == (0usize, mc));
    assert(lb.0 == 1 && lb.1 == mc);
    let db = spec_depth_file(fs, root, entries, store, b, m0, v2);
    let mb = mc.insert(b, 1);
    assert(db == (1usize, mb));
    let la = spec_depth_list(fs, root, entries, store, a, sa, 0, m0, v2);
    assert(spec_depth_list(fs, root, entries, store, a, sa, 1, mb, v2) == (0usize, mb));
    assert(la.0 == 2 && la.1 == mb);
    let da = spec_depth_file(fs, root, entries, store, a, m0, v1);
    let ma = mb.insert(a, 2);
    assert(da == (2usize, ma));
    let le = spec_depth_list(fs, root, entries, store, e, se, 0, m0, v1);
    assert(spec_depth_list(fs, root, entries, store, e, se, 1, ma, v1) == (0usize, ma));
    assert(le.0 == 3 && le.1 == ma);
    assert(spec_depth_file(fs, root, entries, store, e, m0, v0).0 == 3);
}

/// The depth checker's configuration: the workspace root once
/// initialized, the depth threshold, the entry filter and the alias table.
pub struct Config {
    pub root: Option<String>,
    pub threshold: usize,
    pub entry_glob: Option<String>,
    pub tsconfig_paths: AliasTable,
}

impl Config {
    /// Settles the workspace root: an explicitly set root stands; else the
    /// detected one; with neither the run cannot proceed. On success the
    /// alias table moves in.
    pub fn initialize(&mut self, detected_root: Option<String>, aliases: AliasTable) -> (r: Result<
        (),
        crate::bloat::CheckError,
    >)
        ensures
            match r {
                Ok(()) => (old(self).root is Some || detected_root is Some) && final(self).root
                    == (if old(self).root is Some {
                    old(self).root
                } else {
                    detected_root
                }) && final(self).tsconfig_paths == aliases && final(self).threshold == old(
                    self,
                ).threshold && final(self).entry_glob == old(self).entry_glob,
                Err(e) => old(self).root is None && detected_root is None && e
                    == crate::bloat::CheckError::ConfigNotInitialized && *final(self) == *old(
                    self,
                ),
            },
    {
        if self.root.is_none() {
            match detected_root {
                Some(d) => {
                    self.root = Some(d);
                },
                None => {
                    return Err(crate::bloat::CheckError::ConfigNotInitialized);
                },
            }
        }
        self.tsconfig_paths = aliases;
        Ok(())
    }

    /// The settled workspace root, or the error a run would stop with.
    pub fn root<'a>(&'a self) -> (r: Result<&'a String, crate::bloat::CheckError>)
        ensures
            match r {
                Ok(s) => self.root == Some(*s),
                Err(e) => self.root is None && e == crate::bloat::CheckError::ConfigNotInitialized,
            },
    {
        match &self.root {
            Some(s) => Ok(s),
            None => Err(crate::bloat::CheckError::ConfigNotInitialized),
        }
    }
}

/// One depth warning: the import statement text, the entry's
/// root-relative path, the offending depth, and the resolved target
/// relative to the root when it lies under it.
pub struct Warning {
    pub import_statement: String,
    pub from_file: String,
    pub depth: usize,
    pub resolved_path: Option<String>,
}

/// Mathematical image of a `Warning`.
pub ghost struct WarningModel {
    pub import_statement: Seq<char>,
    pub from_file: Seq<char>,
    pub depth: nat,
    pub resolved_path: Option<Seq<char>>,
}

impl View for Warning {
    type V = WarningModel;

    open spec fn view(&self) -> WarningModel {
        WarningModel {
            import_statement: self.import_statement@,
            from_file: self.from_file@,
            depth: self.depth as nat,
            resolved_path: self.resolved_path.deep_view(),
        }
    }
}

impl DeepView for Warning {
    type V = WarningModel;

    open spec fn deep_view(&self) -> WarningModel {
        self.view()
    }
}

/// What the run hands back: the warnings in entry order, and how many
/// distinct files had their imports extracted.
pub struct CheckResult {
    pub warnings: Vec<Warning>,
    pub files_analyzed: usize,
}

/// The warnings among one entry's depth rows from position `i` on: one
/// per row whose depth meets the threshold, the resolved path kept only
/// when it lies under the root.
pub open spec fn spec_rows_warnings(
    root: Seq<char>,
    threshold: nat,
    entry: Seq<char>,
    rows: Seq<(Seq<char>, Option<Seq<char>>, usize)>,
    i: int,
) -> Seq<WarningModel>
    decreases rows.len() - i,
{
    if i < 0 || i >= rows.len() {
        Seq::empty()
    } else {
        let rest = spec_rows_warnings(root, threshold, entry, rows, i + 1);
        if rows[i].2 as nat >= threshold {
            seq![
                WarningModel {
                    import_statement: "import '"@ + rows[i].0 + "'"@,
                    from_file: crate::pathutil::spec_strip_root(root, entry),
                    depth: rows[i].2 as nat,
                    resolved_path: match rows[i].1 {
                        Some(t) => if crate::pathutil::spec_root_strips(root, t) {
                            Some(crate::pathutil::spec_strip_root(root, t))
                        } else {
                            None
                        },
                        None => None,
                    },
                },
            ] + rest
        } else {
            rest
        }
    }
}

/// The whole run's warnings and final depth memo, entry by entry from
/// position `i` on, threading the shared memo in entry order.
pub open spec fn spec_depth_run(
    fs: Fs,
    root: Seq<char>,
    entries: Seq<(String, Vec<String>)>,
    store: SourceStore,
    threshold: nat,
    list: Seq<Seq<char>>,
    i: int,
    memo: Map<Seq<char>, usize>,
) -> (Seq<WarningModel>, Map<Seq<char>, usize>)
    decreases list.len() - i,
{
    if i < 0 || i >= list.len() {
        (Seq::empty(), memo)
    } else {
        let rows = spec_import_depths(fs, root, entries, store, list[i], memo);
        let ws = spec_rows_warnings(root, threshold, list[i], rows.0, 0);
        let rest = spec_depth_run(fs, root, entries, store, threshold, list, i + 1, rows.1);
        (ws + rest.0, rest.1)
    }
}

/// The distinct files the depth run analyzes: the entries and every file
/// whose depth was computed, among those the run holds sources for.
pub open spec fn spec_depth_analyzed(
    store: SourceStore,
    list: Seq<Seq<char>>,
    memo: Map<Seq<char>, usize>,
) -> Set<Seq<char>> {
    Set::new(
        |x: Seq<char>|
            (list.contains(x) || memo.contains_key(x)) && spec_module_lookup(store.modules@, x)
                is Some,
    )
}

/// The warnings one entry's rows contribute.
#[verifier::rlimit(60)]
fn rows_to_warnings(
    root: &str,
    threshold: usize,
    entry: &str,
    rows: &Vec<(String, Option<String>, usize)>,
) -> (r: Vec<Warning>)
    ensures
        r.deep_view() == spec_rows_warnings(root@, threshold as nat, entry@, rows.deep_view(), 0),
{
    let ghost grows = rows.deep_view();
    let mut out: Vec<Warning> = Vec::new();
    let rel_entry = crate::pathutil::strip_root(root, entry);
    let n = rows.len();
    let mut i: usize = 0;
    proof {
        assert(out.deep_view() + spec_rows_warnings(root@, threshold as nat, entry@, grows, 0)
            =~= spec_rows_warnings(root@, threshold as nat, entry@, grows, 0));
    }
    #[verifier::loop_isolation(false)]
    while i < n
        invariant
            0 <= i <= n,
            n == grows.len(),
            rows.deep_view() == grows,
            rel_entry@ == crate::pathutil::spec_strip_root(root@, entry@),
            spec_rows_warnings(root@, threshold as nat, entry@, grows, 0) == out.deep_view()
                + spec_rows_warnings(root@, threshold as nat, entry@, grows, i as int),
        decreases n - i,
    {
        let row = &rows[i];
        proof {
            assert(grows[i as int] == rows@[i as int].deep_view());
            assert(grows[i as int].0 == row.0@);
            assert(grows[i as int].1 == row.1.deep_view());
            assert(grows[i as int].2 == row.2);
        }
        if row.2 >= threshold {
            let mut stmt = crate::strutil::concat_str("import '", row.0.as_str());
            stmt.append("'");
            proof {
                assert(stmt@ =~= "import '"@ + grows[i as int].0 + "'"@);
            }
            let resolved_rel: Option<String> = match &row.1 {
                Some(t) => {
                    if crate::pathutil::root_strips(root, t.as_str()) {
                        Some(crate::pathutil::strip_root(root, t.as_str()))
                    } else {
                        None
                    }
                },
                None => None,
            };
            let ghost wpre = *&out;
            out.push(
                Warning {
                    import_statement: stmt,
                    from_file: rel_entry.clone(),
                    depth: row.2,
                    resolved_path: resolved_rel,
                },
            );
            proof {
                crate::types::lemma_vec_deep_push(wpre, out, out@[out@.len() - 1]);
            }
        }
        proof {
            assert(spec_rows_warnings(root@, threshold as nat, entry@, grows, 0)
                =~= out.deep_view() + spec_rows_warnings(
                root@,
                threshold as nat,
                entry@,
                grows,
                i + 1,
            ));
        }
        i += 1;
    }
    proof {
        assert(spec_rows_warnings(root@, threshold as nat, entry@, grows, n as int) =~= Seq::<
            WarningModel,
        >::empty());
        assert(out.deep_view() + Seq::<WarningModel>::empty() =~= out.deep_view());
    }
    out
}

/// The whole import-depth run over an already initialized configuration:
/// entries are selected from the walked candidates; each direct import of
/// each entry is measured and compared against the threshold; warnings
/// come in entry order, with the shared depth memo threaded through.
#[verifier::rlimit(60)]
pub fn run_import_depth_check(cfg: &Config, fs: &Fs, store: &SourceStore, walked: &Vec<String>) -> (r:
    Result<CheckResult, crate::bloat::CheckError>)
    requires
        store_wf(*fs, *store),
    ensures
        match r {
            Ok(res) => {
                &&& cfg.root is Some
                &&& crate::collector::spec_collect_entries(
                    cfg.root->0@,
                    cfg.entry_glob,
                    walked.deep_view(),
                ).len() > 0
                &&& res.warnings.deep_view() == spec_depth_run(
                    *fs,
                    cfg.root->0@,
                    cfg.tsconfig_paths.entries@,
                    *store,
                    cfg.threshold as nat,
                    crate::collector::spec_collect_entries(
                        cfg.root->0@,
                        cfg.entry_glob,
                        walked.deep_view(),
                    ),
                    0,
                    Map::empty(),
                ).0
                &&& res.files_analyzed as nat == spec_depth_analyzed(
                    *store,
                    crate::collector::spec_collect_entries(
                        cfg.root->0@,
                        cfg.entry_glob,
                        walked.deep_view(),
                    ),
                    spec_depth_run(
                        *fs,
                        cfg.root->0@,
                        cfg.tsconfig_paths.entries@,
                        *store,
                        cfg.threshold as nat,
                        crate::collector::spec_collect_entries(
                            cfg.root->0@,
                            cfg.entry_glob,
                            walked.deep_view(),
                        ),
                        0,
                        Map::empty(),
                    ).1,
                ).len()
            },
            Err(crate::bloat::CheckError::ConfigNotInitialized) => cfg.root is None,
            Err(crate::bloat::CheckError::NoEntryFiles) => cfg.root is Some
                && crate::collector::spec_collect_entries(
                cfg.root->0@,
                cfg.entry_glob,
                walked.deep_view(),
            ).len() == 0,
        },
{
    let root = match cfg.root() {
        Ok(rt) => rt,
        Err(e) => {
            return Err(e);
        },
    };
    let ghost gfs = *fs;
    let ghost groot = root@;
    let ghost gentries = cfg.tsconfig_paths.entries@;
    let ghost gstore = *store;
    let ghost gthreshold = cfg.threshold as nat;
    let collector_cfg = crate::collector::CollectorConfig {
        root: root.clone(),
        entry_glob: match &cfg.entry_glob {
            Some(g) => Some(g.clone()),
            None => None,
        },
        tsconfig_paths: AliasTable { entries: Vec::new() },
    };
    let entries = crate::collector::collect_entries(&collector_cfg, walked);
    proof {
        assert(collector_cfg.entry_glob == cfg.entry_glob) by {
            match cfg.entry_glob {
                Some(g) => {
                    assert(collector_cfg.entry_glob->0 == g);
                },
                None => {},
            }
        }
    }
    if entries.len() == 0 {
        return Err(crate::bloat::CheckError::NoEntryFiles);
    }
    let ghost glist = entries.deep_view();
    let mut import_cache = ImportCache::new();
    let mut resolve_cache = ResolveCache::new();
    let mut depth_cache = DepthCache::new();
    let mut warnings: Vec<Warning> = Vec::new();
    let n = entries.len();
    let mut i: usize = 0;
    proof {
        assert(warnings.deep_view() + spec_depth_run(
            gfs,
            groot,
            gentries,
            gstore,
            gthreshold,
            glist,
            0,
            Map::empty(),
        ).0 =~= spec_depth_run(gfs, groot, gentries, gstore, gthreshold, glist, 0, Map::empty()).0);
        assert(glist.take(0) =~= Seq::<Seq<char>>::empty());
        assert(import_cache_view(import_cache).dom() =~= spec_depth_analyzed(
            gstore,
            glist.take(0),
            depth_cache_view(depth_cache),
        ));
    }
    #[verifier::loop_isolation(false)]
    while i < n
        invariant
            0 <= i <= n,
            n == glist.len(),
            entries.deep_view() == glist,
            spec_depth_run(gfs, groot, gentries, gstore, gthreshold, glist, 0, Map::empty()).0
                == warnings.deep_view() + spec_depth_run(
                gfs,
                groot,
                gentries,
                gstore,
                gthreshold,
                glist,
                i as int,
                depth_cache_view(depth_cache),
            ).0,
            spec_depth_run(gfs, groot, gentries, gstore, gthreshold, glist, 0, Map::empty()).1
                == spec_depth_run(
                gfs,
                groot,
                gentries,
                gstore,
                gthreshold,
                glist,
                i as int,
                depth_cache_view(depth_cache),
            ).1,
            import_cache_ok(gstore, import_cache_view(import_cache)),
            resolve_cache_ok(gfs, groot, gentries, resolve_cache_view(resolve_cache)),
            import_cache_view(import_cache).dom() =~= spec_depth_analyzed(
                gstore,
                glist.take(i as int),
                depth_cache_view(depth_cache),
            ),
        decreases n - i,
    {
        let ghost wpre = warnings.deep_view();
        let ghost mi = depth_cache_view(depth_cache);
        let rows = compute_import_depths(
            fs,
            root.as_str(),
            &cfg.tsconfig_paths,
            store,
            entries[i].as_str(),
            &mut import_cache,
            &mut resolve_cache,
            &mut depth_cache,
        );
        proof {
            assert(entries@[i as int]@ == glist[i as int]);
            assert forall|x: Seq<char>| #![auto] import_cache_view(import_cache).dom().contains(x)
                <==> spec_depth_analyzed(
                gstore,
                glist.take(i + 1),
                depth_cache_view(depth_cache),
            ).contains(x) by {
                if glist.take(i + 1).contains(x) {
                    let k = choose|k: int| 0 <= k < i + 1 && (#[trigger] glist.take(i + 1)[k]) == x;
                    if k < i {
                        assert(glist.take(i as int)[k] == x);
                    } else {
                        assert(x == glist[i as int]);
                    }
                }
                if glist.take(i as int).contains(x) {
                    let k = choose|k: int| 0 <= k < i && (#[trigger] glist.take(i as int)[k]) == x;
                    assert(glist.take(i + 1)[k] == x);
                }
                if x == glist[i as int] {
                    assert(glist.take(i + 1)[i as int] == x);
                }
            }
            assert(import_cache_view(import_cache).dom() =~= spec_depth_analyzed(
                gstore,
                glist.take(i + 1),
                depth_cache_view(depth_cache),
            ));
        }
        let mut entry_warnings = rows_to_warnings(
            root.as_str(),
            cfg.threshold,
            entries[i].as_str(),
            &rows,
        );
        let ghost gw = entry_warnings.deep_view();
        warnings.append(&mut entry_warnings);
        proof {
            assert forall|k: int| 0 <= k < warnings.deep_view().len() implies
                warnings.deep_view()[k] == (wpre + gw)[k] by {
                assert(warnings.deep_view()[k] == warnings@[k]@);
            }
            assert(warnings.deep_view() =~= wpre + gw);
            assert(wpre + (gw + spec_depth_run(
                gfs,
                groot,
                gentries,
                gstore,
                gthreshold,
                glist,
                i + 1,
                depth_cache_view(depth_cache),
            ).0) =~= warnings.deep_view() + spec_depth_run(
                gfs,
                groot,
                gentries,
                gstore,
                gthreshold,
                glist,
                i + 1,
                depth_cache_view(depth_cache),
            ).0);
        }
        i += 1;
    }
    let files_analyzed = import_cache.len();
    proof {
        assert(spec_depth_run(
            gfs,
            groot,
            gentries,
            gstore,
            gthreshold,
            glist,
            n as int,
            depth_cache_view(depth_cache),
        ).0 =~= Seq::<WarningModel>::empty());
        assert(warnings.deep_view() =~= spec_depth_run(
            gfs,
            groot,
            gentries,
            gstore,
            gthreshold,
            glist,
            0,
            Map::empty(),
        ).0);
        assert(glist.take(n as int) =~= glist);
        assert(depth_cache_view(depth_cache) == spec_depth_run(
            gfs,
            groot,
            gentries,
            gstore,
            gthreshold,
            glist,
            0,
            Map::empty(),
        ).1);
        assert(import_cache_view(import_cache).dom() =~= spec_depth_analyzed(
            gstore,
            glist,
            depth_cache_view(depth_cache),
        ));
    }
    Ok(CheckResult { warnings, files_analyzed })
}

} // verus!
