//! Transitive reachability over the import graph, with its shared memo.

use vstd::prelude::*;
use vstd::string::StringExecFns;
use crate::caches::{
    ImportCache, ReachableCache, ResolveCache, import_cache_view, reachable_cache_view,
    resolve_cache_view,
};
use crate::fsmodel::Fs;
use crate::parser::{SourceStore, import_cache_ok, imports_for, spec_imports, spec_module_lookup};
use crate::resolver::{AliasTable, lemma_resolve_exists, resolve, resolve_cache_ok, spec_resolve};
use crate::strutil::{copy_strings, vec_contains_string};
use crate::types::{Specifier, SpecifierModel};

verus! {

/// One import edge: `b` is the resolution of one of `a`'s specifiers.
pub open spec fn spec_edge(
    fs: Fs,
    root: Seq<char>,
    entries: Seq<(String, Vec<String>)>,
    store: SourceStore,
    a: Seq<char>,
    b: Seq<char>,
) -> bool {
    match spec_imports(store, a) {
        Some(specs) => exists|i: int|
            0 <= i < specs.len() && spec_resolve(fs, root, entries, a, specs[i].request) == Some(b),
        None => false,
    }
}

/// A chain of import edges.
pub open spec fn spec_is_path(
    fs: Fs,
    root: Seq<char>,
    entries: Seq<(String, Vec<String>)>,
    store: SourceStore,
    p: Seq<Seq<char>>,
) -> bool {
    p.len() >= 1 && forall|i: int|
        0 <= i < p.len() - 1 ==> spec_edge(fs, root, entries, store, #[trigger] p[i], p[i + 1])
}

/// `t` lies at the end of some import chain from `start`; the chain of
/// length one makes every file reach itself.
pub open spec fn spec_reachable(
    fs: Fs,
    root: Seq<char>,
    entries: Seq<(String, Vec<String>)>,
    store: SourceStore,
    start: Seq<char>,
    t: Seq<char>,
) -> bool {
    exists|p: Seq<Seq<char>>|
        spec_is_path(fs, root, entries, store, p) && p[0] == start && p[p.len() - 1] == t
}

/// The transitive closure of files reachable from `start`, `start` included.
pub open spec fn spec_reach_set(
    fs: Fs,
    root: Seq<char>,
    entries: Seq<(String, Vec<String>)>,
    store: SourceStore,
    start: Seq<char>,
) -> Set<Seq<char>> {
    Set::new(|t: Seq<char>| spec_reachable(fs, root, entries, store, start, t))
}

pub proof fn lemma_reachable_self(
    fs: Fs,
    root: Seq<char>,
    entries: Seq<(String, Vec<String>)>,
    store: SourceStore,
    start: Seq<char>,
)
    ensures
        spec_reachable(fs, root, entries, store, start, start),
{
    let p = seq![start];
    assert(spec_is_path(fs, root, entries, store, p) && p[0] == start && p[p.len() - 1] == start);
}

/// A reachable file other than the start is a path the model knows.
pub proof fn lemma_reachable_exists(
    fs: Fs,
    root: Seq<char>,
    entries: Seq<(String, Vec<String>)>,
    store: SourceStore,
    start: Seq<char>,
    t: Seq<char>,
)
    requires
        spec_reachable(fs, root, entries, store, start, t),
    ensures
        t == start || fs.spec_exists(t),
{
    let p = choose|p: Seq<Seq<char>>|
        spec_is_path(fs, root, entries, store, p) && p[0] == start && p[p.len() - 1] == t;
    if p.len() > 1 {
        assert(spec_edge(fs, root, entries, store, p[p.len() - 2], p[p.len() - 1]));
        let specs = spec_imports(store, p[p.len() - 2])->0;
        let i = choose|i: int|
            0 <= i < specs.len() && spec_resolve(fs, root, entries, p[p.len() - 2], specs[i].request)
                == Some(t);
        lemma_resolve_exists(fs, root, entries, p[p.len() - 2], specs[i].request);
    }
}

/// Reachability extends along one edge.
pub proof fn lemma_reachable_step(
    fs: Fs,
    root: Seq<char>,
    entries: Seq<(String, Vec<String>)>,
    store: SourceStore,
    start: Seq<char>,
    a: Seq<char>,
    b: Seq<char>,
)
    requires
        spec_reachable(fs, root, entries, store, start, a),
        spec_edge(fs, root, entries, store, a, b),
    ensures
        spec_reachable(fs, root, entries, store, start, b),
{
    let p = choose|p: Seq<Seq<char>>|
        spec_is_path(fs, root, entries, store, p) && p[0] == start && p[p.len() - 1] == a;
    let q = p.push(b);
    assert forall|i: int| 0 <= i < q.len() - 1 implies spec_edge(
        fs,
        root,
        entries,
        store,
        #[trigger] q[i],
        q[i + 1],
    ) by {
        if i < p.len() - 1 {
            assert(q[i] == p[i] && q[i + 1] == p[i + 1]);
        } else {
            assert(q[i] == a && q[i + 1] == b);
        }
    }
    assert(spec_is_path(fs, root, entries, store, q) && q[0] == start && q[q.len() - 1] == b);
}

/// Reachability composes: what the middle reaches, the start reaches.
pub proof fn lemma_reachable_trans(
    fs: Fs,
    root: Seq<char>,
    entries: Seq<(String, Vec<String>)>,
    store: SourceStore,
    start: Seq<char>,
    mid: Seq<char>,
    t: Seq<char>,
)
    requires
        spec_reachable(fs, root, entries, store, start, mid),
        spec_reachable(fs, root, entries, store, mid, t),
    ensures
        spec_reachable(fs, root, entries, store, start, t),
{
    let p1 = choose|p: Seq<Seq<char>>|
        spec_is_path(fs, root, entries, store, p) && p[0] == start && p[p.len() - 1] == mid;
    let p2 = choose|p: Seq<Seq<char>>|
        spec_is_path(fs, root, entries, store, p) && p[0] == mid && p[p.len() - 1] == t;
    if p2.len() == 1 {
        assert(t == mid);
    } else {
        let q = p1 + p2.drop_first();
        assert(q.len() == p1.len() + p2.len() - 1);
        assert(q[0] == p1[0]);
        assert(q[q.len() - 1] == p2[p2.len() - 2 + 1]);
        assert forall|i: int| 0 <= i < q.len() - 1 implies spec_edge(
            fs,
            root,
            entries,
            store,
            #[trigger] q[i],
            q[i + 1],
        ) by {
            if i < p1.len() - 1 {
                assert(q[i] == p1[i] && q[i + 1] == p1[i + 1]);
            } else if i == p1.len() - 1 {
                assert(q[i] == mid && q[i + 1] == p2[1]);
                assert(spec_edge(fs, root, entries, store, p2[0], p2[1]));
            } else {
                assert(q[i] == p2[i - p1.len() + 1] && q[i + 1] == p2[i - p1.len() + 2]);
                assert(spec_edge(fs, root, entries, store, p2[i - p1.len() + 1], p2[i - p1.len()
                    + 2]));
            }
        }
        assert(spec_is_path(fs, root, entries, store, q) && q[0] == start && q[q.len() - 1] == t);
    }
}

/// A set that holds the start of a path and is closed under edges holds
/// its end.
proof fn lemma_path_in_closed(
    fs: Fs,
    root: Seq<char>,
    entries: Seq<(String, Vec<String>)>,
    store: SourceStore,
    p: Seq<Seq<char>>,
    c: Set<Seq<char>>,
)
    requires
        spec_is_path(fs, root, entries, store, p),
        c.contains(p[0]),
        forall|a: Seq<char>, b: Seq<char>|
            c.contains(a) && spec_edge(fs, root, entries, store, a, b) ==> c.contains(b),
    ensures
        c.contains(p[p.len() - 1]),
    decreases p.len(),
{
    if p.len() > 1 {
        assert(spec_edge(fs, root, entries, store, p[0], p[1]));
        let q = p.drop_first();
        assert forall|i: int| 0 <= i < q.len() - 1 implies spec_edge(
            fs,
            root,
            entries,
            store,
            #[trigger] q[i],
            q[i + 1],
        ) by {
            assert(q[i] == p[i + 1] && q[i + 1] == p[i + 2]);
        }
        lemma_path_in_closed(fs, root, entries, store, q, c);
    }
}

/// The files whose imports a traversal of `start`'s graph extracts: the
/// reachable files the run holds sources for.
pub open spec fn spec_parsed_of(
    fs: Fs,
    root: Seq<char>,
    entries: Seq<(String, Vec<String>)>,
    store: SourceStore,
    start: Seq<char>,
) -> Set<Seq<char>> {
    Set::new(
        |x: Seq<char>|
            spec_reachable(fs, root, entries, store, start, x) && spec_module_lookup(
                store.modules@,
                x,
            ) is Some,
    )
}

/// Every memoized closure is duplicate-free and equals the reachable set
/// of its key; the files it was computed from are all in the import memo.
pub open spec fn reachable_cache_ok(
    fs: Fs,
    root: Seq<char>,
    entries: Seq<(String, Vec<String>)>,
    store: SourceStore,
    m: Map<Seq<char>, Seq<Seq<char>>>,
    ic: Map<Seq<char>, Seq<SpecifierModel>>,
) -> bool {
    &&& m.dom().finite()
    &&& forall|k: Seq<char>| #[trigger]
        m.contains_key(k) ==> m[k].no_duplicates() && m[k].to_set() == spec_reach_set(
            fs,
            root,
            entries,
            store,
            k,
        ) && spec_parsed_of(fs, root, entries, store, k).subset_of(ic.dom())
}

/// A set that holds a start file and is closed under import edges holds
/// everything reachable from it.
proof fn lemma_closure_complete(
    fs: Fs,
    root: Seq<char>,
    entries: Seq<(String, Vec<String>)>,
    store: SourceStore,
    start: Seq<char>,
    c: Set<Seq<char>>,
)
    requires
        c.contains(start),
        forall|a: Seq<char>, b: Seq<char>|
            c.contains(a) && spec_edge(fs, root, entries, store, a, b) ==> c.contains(b),
    ensures
        forall|t: Seq<char>|
            spec_reachable(fs, root, entries, store, start, t) ==> c.contains(t),
{
    assert forall|t: Seq<char>|
        spec_reachable(fs, root, entries, store, start, t) implies c.contains(t) by {
        let p = choose|p: Seq<Seq<char>>|
            spec_is_path(fs, root, entries, store, p) && p[0] == start && p[p.len() - 1] == t;
        lemma_path_in_closed(fs, root, entries, store, p, c);
    }
}

/// Resolves every specifier of `cur` and pushes the unvisited targets.
fn expand_node(
    fs: &Fs,
    root: &str,
    aliases: &AliasTable,
    store: &SourceStore,
    Ghost(start): Ghost<Seq<char>>,
    cur: &String,
    specs: &Vec<Specifier>,
    visited: &Vec<String>,
    stack: &mut Vec<String>,
    resolve_cache: &mut ResolveCache,
)
    requires
        spec_imports(*store, cur@) == Some(specs.deep_view()),
        spec_reachable(*fs, root@, aliases.entries@, *store, start, cur@),
        resolve_cache_ok(*fs, root@, aliases.entries@, resolve_cache_view(*old(resolve_cache))),
        forall|j: int| 0 <= j < old(stack).deep_view().len() ==> spec_reachable(
            *fs,
            root@,
            aliases.entries@,
            *store,
            start,
            #[trigger] old(stack).deep_view()[j],
        ),
    ensures
        resolve_cache_ok(*fs, root@, aliases.entries@, resolve_cache_view(*final(resolve_cache))),
        forall|x: Seq<char>|
            old(stack).deep_view().contains(x) ==> final(stack).deep_view().contains(x),
        forall|j: int| 0 <= j < final(stack).deep_view().len() ==> spec_reachable(
            *fs,
            root@,
            aliases.entries@,
            *store,
            start,
            #[trigger] final(stack).deep_view()[j],
        ),
        forall|i: int|
            0 <= i < specs.deep_view().len() ==> match spec_resolve(
                *fs,
                root@,
                aliases.entries@,
                cur@,
                (#[trigger] specs.deep_view()[i]).request,
            ) {
                Some(b) => visited.deep_view().contains(b) || final(stack).deep_view().contains(b),
                None => true,
            },
{
    let ghost gfs = *fs;
    let ghost groot = root@;
    let ghost gentries = aliases.entries@;
    let ghost gstore = *store;
    let ghost gspecs = specs.deep_view();
    let ghost stack0 = stack.deep_view();
    let n = specs.len();
    let mut j: usize = 0;
    #[verifier::loop_isolation(false)]
    while j < n
        invariant
            0 <= j <= n,
            n == gspecs.len(),
            resolve_cache_ok(gfs, groot, gentries, resolve_cache_view(*resolve_cache)),
            forall|x: Seq<char>| stack0.contains(x) ==> stack.deep_view().contains(x),
            forall|j2: int| 0 <= j2 < stack.deep_view().len() ==> spec_reachable(
                gfs,
                groot,
                gentries,
                gstore,
                start,
                #[trigger] stack.deep_view()[j2],
            ),
            forall|i: int|
                0 <= i < j ==> match spec_resolve(
                    gfs,
                    groot,
                    gentries,
                    cur@,
                    (#[trigger] gspecs[i]).request,
                ) {
                    Some(b) => visited.deep_view().contains(b) || stack.deep_view().contains(b),
                    None => true,
                },
        decreases n - j,
    {
        let s = &specs[j];
        let resolved = resolve(fs, root, aliases, cur.as_str(), s.request.as_str(), resolve_cache);
        proof {
            assert(gspecs[j as int].request == s@.request);
        }
        if let Some(next) = resolved {
            let ghost gnext = next@;
            if !vec_contains_string(visited, next.as_str()) {
                let ghost stack_in = stack.deep_view();
                proof {
                    assert(spec_edge(gfs, groot, gentries, gstore, cur@, next@)) by {
                        assert(spec_resolve(gfs, groot, gentries, cur@, s@.request) == Some(
                            next@,
                        ));
                    }
                    lemma_reachable_step(gfs, groot, gentries, gstore, start, cur@, next@);
                }
                stack.push(next);
                proof {
                    assert(stack.deep_view().len() == stack_in.len() + 1);
                    assert(stack.deep_view()[stack_in.len() as int] == gnext);
                    assert forall|k: int| 0 <= k < stack_in.len() implies stack.deep_view()[k]
                        == stack_in[k] by {
                        assert(stack.deep_view()[k] == stack@[k]@);
                    }
                    assert forall|x: Seq<char>| stack_in.contains(x) implies
                        stack.deep_view().contains(x) by {
                        let k = choose|k: int| 0 <= k < stack_in.len() && stack_in[k] == x;
                        assert(stack.deep_view()[k] == x);
                    }
                    assert(stack.deep_view().contains(gnext));
                    assert forall|j2: int| 0 <= j2 < stack.deep_view().len() implies spec_reachable(
                        gfs,
                        groot,
                        gentries,
                        gstore,
                        start,
                        #[trigger] stack.deep_view()[j2],
                    ) by {
                        if j2 < stack_in.len() {
                            assert(stack.deep_view()[j2] == stack_in[j2]);
                        } else {
                            assert(stack.deep_view()[j2] == gnext);
                        }
                    }
                }
            } else {
                proof {
                    assert(visited.deep_view().contains(gnext));
                }
            }
        }
        j += 1;
    }
}

/// The set of files reachable from `start` by import edges, as an
/// iterative traversal with an explicit work stack: duplicate-free, the
/// start included, memoized per start file. The import memo afterwards
/// holds, beyond what it held, exactly the imports of the reachable files
/// the run has a source for.
#[verifier::rlimit(100)]
pub fn reachable_modules(
    fs: &Fs,
    root: &str,
    aliases: &AliasTable,
    store: &SourceStore,
    start: &str,
    import_cache: &mut ImportCache,
    resolve_cache: &mut ResolveCache,
    reachable_cache: &mut ReachableCache,
) -> (r: Vec<String>)
    requires
        import_cache_ok(*store, import_cache_view(*old(import_cache))),
        resolve_cache_ok(*fs, root@, aliases.entries@, resolve_cache_view(*old(resolve_cache))),
        reachable_cache_ok(
            *fs,
            root@,
            aliases.entries@,
            *store,
            reachable_cache_view(*old(reachable_cache)),
            import_cache_view(*old(import_cache)),
        ),
    ensures
        r.deep_view().no_duplicates(),
        r.deep_view().to_set() == spec_reach_set(*fs, root@, aliases.entries@, *store, start@),
        import_cache_ok(*store, import_cache_view(*final(import_cache))),
        resolve_cache_ok(*fs, root@, aliases.entries@, resolve_cache_view(*final(resolve_cache))),
        reachable_cache_ok(
            *fs,
            root@,
            aliases.entries@,
            *store,
            reachable_cache_view(*final(reachable_cache)),
            import_cache_view(*final(import_cache)),
        ),
        import_cache_view(*final(import_cache)).dom() =~= import_cache_view(
            *old(import_cache),
        ).dom().union(spec_parsed_of(*fs, root@, aliases.entries@, *store, start@)),
        reachable_cache_view(*final(reachable_cache)) =~= (
        if reachable_cache_view(*old(reachable_cache)).contains_key(start@) {
            reachable_cache_view(*old(reachable_cache))
        } else {
            reachable_cache_view(*old(reachable_cache)).insert(start@, r.deep_view())
        }),
{
    let ghost gfs = *fs;
    let ghost groot = root@;
    let ghost gentries = aliases.entries@;
    let ghost gstore = *store;
    let ghost dom0 = import_cache_view(*import_cache).dom();
    if let Some(hit) = reachable_cache.get(start) {
        proof {
            assert(spec_parsed_of(gfs, groot, gentries, gstore, start@).subset_of(dom0));
            assert(import_cache_view(*import_cache).dom() =~= dom0.union(
                spec_parsed_of(gfs, groot, gentries, gstore, start@),
            ));
        }
        return hit;
    }
    let ghost allp = fs.spec_universe().insert(start@);
    proof {
        gfs.lemma_universe();
        lemma_reachable_self(gfs, groot, gentries, gstore, start@);
    }
    let mut visited: Vec<String> = Vec::new();
    let mut stack: Vec<String> = Vec::new();
    stack.push(String::from_str(start));
    proof {
        assert(stack.deep_view().len() == 1);
        assert(stack.deep_view()[0] == stack@[0]@);
        assert(stack.deep_view()[0] == start@);
        assert(stack.deep_view().contains(start@));
        assert(visited.deep_view().to_set() =~= Set::<Seq<char>>::empty());
        assert(import_cache_view(*import_cache).dom() =~= dom0.union(
            Set::new(
                |x: Seq<char>|
                    visited.deep_view().contains(x) && spec_module_lookup(gstore.modules@, x)
                        is Some,
            ),
        ));
    }
    #[verifier::loop_isolation(false)]
    loop
        invariant
            visited.deep_view().no_duplicates(),
            forall|j: int| 0 <= j < visited.deep_view().len() ==> spec_reachable(
                gfs,
                groot,
                gentries,
                gstore,
                start@,
                #[trigger] visited.deep_view()[j],
            ),
            forall|j: int| 0 <= j < stack.deep_view().len() ==> spec_reachable(
                gfs,
                groot,
                gentries,
                gstore,
                start@,
                #[trigger] stack.deep_view()[j],
            ),
            visited.deep_view().contains(start@) || stack.deep_view().contains(start@),
            forall|a: Seq<char>, b: Seq<char>|
                visited.deep_view().contains(a) && #[trigger] spec_edge(
                    gfs,
                    groot,
                    gentries,
                    gstore,
                    a,
                    b,
                ) ==> visited.deep_view().contains(b) || stack.deep_view().contains(b),
            import_cache_ok(gstore, import_cache_view(*import_cache)),
            resolve_cache_ok(gfs, groot, gentries, resolve_cache_view(*resolve_cache)),
            reachable_cache_view(*reachable_cache) == reachable_cache_view(*old(reachable_cache)),
            import_cache_view(*import_cache).dom() =~= dom0.union(
                Set::new(
                    |x: Seq<char>|
                        visited.deep_view().contains(x) && spec_module_lookup(gstore.modules@, x)
                            is Some,
                ),
            ),
        decreases allp.difference(visited.deep_view().to_set()).len(), stack@.len(),
    {
        let ghost stack_pre = stack.deep_view();
        let cur = match stack.pop() {
            Some(c) => c,
            None => {
                break ;
            },
        };
        proof {
            assert(stack.deep_view() =~= stack_pre.drop_last());
            assert(cur@ == stack_pre[stack_pre.len() - 1]);
            assert forall|x: Seq<char>| stack_pre.contains(x) implies stack.deep_view().contains(x)
                || x == cur@ by {
                let k = choose|k: int| 0 <= k < stack_pre.len() && stack_pre[k] == x;
                if k < stack_pre.len() - 1 {
                    assert(stack.deep_view()[k] == x);
                }
            }
        }
        if vec_contains_string(&visited, cur.as_str()) {
            continue ;
        }
        proof {
            lemma_reachable_exists(gfs, groot, gentries, gstore, start@, cur@);
            assert(allp.contains(cur@));
            allp.lemma_set_insert_diff_decreases(visited.deep_view().to_set(), cur@);
        }
        let ghost visited_pre = visited.deep_view();
        let specs_opt = imports_for(cur.as_str(), store, import_cache);
        visited.push(cur.clone());
        proof {
            assert(visited.deep_view().len() == visited_pre.len() + 1);
            let ghost pn = visited_pre.len() as int;
            assert(visited.deep_view()[pn] == visited@[pn]@);
            assert forall|k: int| 0 <= k < visited_pre.len() implies visited.deep_view()[k]
                == visited_pre[k] by {
                assert(visited.deep_view()[k] == visited@[k]@);
            }
            assert(visited.deep_view() =~= visited_pre.push(cur@));
            assert forall|x: Seq<char>| #![auto] visited.deep_view().to_set().contains(x) <==>
                visited_pre.to_set().insert(cur@).contains(x) by {
                if visited.deep_view().contains(x) {
                    let k = choose|k: int|
                        0 <= k < visited.deep_view().len() && visited.deep_view()[k] == x;
                    if k < visited_pre.len() {
                        assert(visited_pre[k] == x);
                    }
                }
                if visited_pre.contains(x) {
                    let k = choose|k: int| 0 <= k < visited_pre.len() && visited_pre[k] == x;
                    assert(visited.deep_view()[k] == x);
                }
                if x == cur@ {
                    assert(visited.deep_view()[visited_pre.len() as int] == x);
                }
            }
            assert(visited.deep_view().to_set() =~= visited_pre.to_set().insert(cur@));
            assert(import_cache_view(*import_cache).dom() =~= dom0.union(
                Set::new(
                    |x: Seq<char>|
                        visited.deep_view().contains(x) && spec_module_lookup(gstore.modules@, x)
                            is Some,
                ),
            ));
        }
        let ghost stack_mid = stack.deep_view();
        if let Some(specs) = specs_opt {
            expand_node(
                fs,
                root,
                aliases,
                store,
                Ghost(start@),
                &cur,
                &specs,
                &visited,
                &mut stack,
                resolve_cache,
            );
            proof {
                let ghost gspecs = specs.deep_view();
                assert forall|a: Seq<char>, b: Seq<char>|
                    visited.deep_view().contains(a) && #[trigger] spec_edge(
                        gfs,
                        groot,
                        gentries,
                        gstore,
                        a,
                        b,
                    ) implies visited.deep_view().contains(b) || stack.deep_view().contains(b) by {
                    if a == cur@ {
                        let i = choose|i: int|
                            0 <= i < gspecs.len() && spec_resolve(
                                gfs,
                                groot,
                                gentries,
                                a,
                                gspecs[i].request,
                            ) == Some(b);
                        assert(gspecs[i] == specs.deep_view()[i]);
                        assert(visited.deep_view().contains(b) || stack.deep_view().contains(b));
                    } else {
                        let k = choose|k: int|
                            0 <= k < visited.deep_view().len() && visited.deep_view()[k] == a;
                        assert(visited_pre[k] == a);
                        assert(visited_pre.contains(a));
                        assert(visited_pre.contains(b) || stack_pre.contains(b));
                        if stack_pre.contains(b) {
                            if b == cur@ {
                                assert(visited.deep_view().contains(b));
                            } else {
                                assert(stack_mid.contains(b));
                                assert(stack.deep_view().contains(b));
                            }
                        } else {
                            let k2 = choose|k2: int|
                                0 <= k2 < visited_pre.len() && visited_pre[k2] == b;
                            assert(visited.deep_view()[k2] == b);
                        }
                    }
                }
            }
        } else {
            proof {
                assert forall|a: Seq<char>, b: Seq<char>|
                    visited.deep_view().contains(a) && #[trigger] spec_edge(
                        gfs,
                        groot,
                        gentries,
                        gstore,
                        a,
                        b,
                    ) implies visited.deep_view().contains(b) || stack.deep_view().contains(b) by {
                    if a != cur@ {
                        let k = choose|k: int|
                            0 <= k < visited.deep_view().len() && visited.deep_view()[k] == a;
                        assert(visited_pre[k] == a);
                        assert(visited_pre.contains(a));
                        assert(visited_pre.contains(b) || stack_pre.contains(b));
                        if stack_pre.contains(b) {
                            if b == cur@ {
                                assert(visited.deep_view().contains(b));
                            } else {
                                assert(stack_mid.contains(b));
                            }
                        } else {
                            let k2 = choose|k2: int|
                                0 <= k2 < visited_pre.len() && visited_pre[k2] == b;
                            assert(visited.deep_view()[k2] == b);
                        }
                    } else {
                        assert(spec_imports(gstore, cur@) is None);
                    }
                }
            }
        }
    }
    proof {
        assert(stack@.len() == 0);
        assert(stack.deep_view().len() == 0);
        let v = visited.deep_view().to_set();
        assert(v.contains(start@));
        assert forall|a: Seq<char>, b: Seq<char>|
            v.contains(a) && spec_edge(gfs, groot, gentries, gstore, a, b) implies v.contains(
            b,
        ) by {
            assert(visited.deep_view().contains(a));
        }
        lemma_closure_complete(gfs, groot, gentries, gstore, start@, v);
        assert(v =~= spec_reach_set(gfs, groot, gentries, gstore, start@));
        assert(Set::new(
            |x: Seq<char>|
                visited.deep_view().contains(x) && spec_module_lookup(gstore.modules@, x) is Some,
        ) =~= spec_parsed_of(gfs, groot, gentries, gstore, start@)) by {
            assert forall|x: Seq<char>| #![auto]
                visited.deep_view().contains(x) <==> spec_reachable(
                    gfs,
                    groot,
                    gentries,
                    gstore,
                    start@,
                    x,
                ) by {
                assert(visited.deep_view().contains(x) == v.contains(x));
            }
        }
        assert(import_cache_view(*import_cache).dom() =~= dom0.union(
            spec_parsed_of(gfs, groot, gentries, gstore, start@),
        ));
    }
    let stored = copy_strings(&visited);
    reachable_cache.insert(String::from_str(start), stored);
    visited
}

} // verus!
