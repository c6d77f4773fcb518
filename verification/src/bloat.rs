//! The import-bloat checker: per-import and whole-graph reachable-module
//! counts against a threshold.

use vstd::prelude::*;
use vstd::string::StringExecFns;
use crate::caches::{
    ImportCache, ReachableCache, ResolveCache, import_cache_view, reachable_cache_view,
    resolve_cache_view,
};
use crate::collector::{CollectorConfig, collect_entries, spec_collect_entries};
use crate::fsmodel::Fs;
use crate::graph::{
    lemma_reachable_self, lemma_reachable_step, lemma_reachable_trans, reachable_cache_ok,
    reachable_modules, spec_edge, spec_parsed_of, spec_reach_set,
};
use crate::parser::{SourceStore, import_cache_ok, imports_for, spec_imports};
use crate::pathutil::{spec_strip_root, strip_root};
use crate::resolver::{AliasTable, resolve, resolve_cache_ok, spec_resolve};
use crate::strutil::concat_str;
use crate::types::{SpecifierModel, lemma_vec_deep_push};

verus! {

/// A reason the run stops before analyzing anything.
#[derive(Debug, Clone, Copy, PartialEq, Eq, Structural)]
pub enum CheckError {
    /// The workspace root was neither given nor detected.
    ConfigNotInitialized,
    /// No entry file was selected under the root.
    NoEntryFiles,
}

impl CheckError {
    /// A printable account of the failure.
    pub fn message(&self) -> (r: String)
        ensures
            r@ == (match self {
                CheckError::ConfigNotInitialized => "workspace root is not set"@,
                CheckError::NoEntryFiles => "no entry files found under the root"@,
            }),
    {
        match self {
            CheckError::ConfigNotInitialized => String::from_str("workspace root is not set"),
            CheckError::NoEntryFiles => String::from_str("no entry files found under the root"),
        }
    }
}

/// The bloat checker's configuration: the workspace root once initialized,
/// the module-count threshold, the entry filter and the alias table.
pub struct Config {
    pub root: Option<String>,
    pub threshold: usize,
    pub entry_glob: Option<String>,
    pub tsconfig_paths: AliasTable,
}

impl Config {
    /// Settles the workspace root: an explicitly set root stands; else the
    /// detected one; with neither the run cannot proceed. On success the
    /// alias table moves in.
    pub fn initialize(&mut self, detected_root: Option<String>, aliases: AliasTable) -> (r: Result<
        (),
        CheckError,
    >)
        ensures
            match r {
                Ok(()) => (old(self).root is Some || detected_root is Some) && final(self).root
                    == (if old(self).root is Some {
                    old(self).root
                } else {
                    detected_root
                }) && final(self).tsconfig_paths == aliases && final(self).threshold == old(
                    self,
                ).threshold && final(self).entry_glob == old(self).entry_glob,
                Err(e) => old(self).root is None && detected_root is None && e
                    == CheckError::ConfigNotInitialized && *final(self) == *old(self),
            },
    {
        if self.root.is_none() {
            match detected_root {
                Some(d) => {
                    self.root = Some(d);
                },
                None => {
                    return Err(CheckError::ConfigNotInitialized);
                },
            }
        }
        self.tsconfig_paths = aliases;
        Ok(())
    }

    /// The settled workspace root, if initialization has happened.
    pub fn root<'a>(&'a self) -> (r: Option<&'a String>)
        ensures
            match r {
                Some(s) => self.root == Some(*s),
                None => self.root is None,
            },
    {
        self.root.as_ref()
    }
}

/// One bloat warning: the import statement text (or the whole-graph
/// marker), the entry's root-relative path, the offending count, and the
/// resolved target relative to the root for per-import warnings.
pub struct Warning {
    pub import_statement: String,
    pub from_file: String,
    pub reachable_unique_modules: usize,
    pub resolved_path: Option<String>,
}

/// Mathematical image of a `Warning`.
pub ghost struct WarningModel {
    pub import_statement: Seq<char>,
    pub from_file: Seq<char>,
    pub reachable_unique_modules: nat,
    pub resolved_path: Option<Seq<char>>,
}

impl View for Warning {
    type V = WarningModel;

    open spec fn view(&self) -> WarningModel {
        WarningModel {
            import_statement: self.import_statement@,
            from_file: self.from_file@,
            reachable_unique_modules: self.reachable_unique_modules as nat,
            resolved_path: self.resolved_path.deep_view(),
        }
    }
}

impl DeepView for Warning {
    type V = WarningModel;

    open spec fn deep_view(&self) -> WarningModel {
        self.view()
    }
}

/// What the run hands back: the warnings in entry order, and how many
/// distinct files had their imports extracted.
pub struct CheckResult {
    pub warnings: Vec<Warning>,
    pub files_analyzed: usize,
}

/// How many modules are reachable from `f`, itself included.
pub open spec fn spec_reach_size(
    fs: Fs,
    root: Seq<char>,
    entries: Seq<(String, Vec<String>)>,
    store: SourceStore,
    f: Seq<char>,
) -> nat {
    spec_reach_set(fs, root, entries, store, f).len()
}

/// The per-import warning rows of one entry from specifier `i` on: a row
/// for each resolved import whose own reachable count meets the threshold.
pub open spec fn spec_entry_rows(
    fs: Fs,
    root: Seq<char>,
    entries: Seq<(String, Vec<String>)>,
    store: SourceStore,
    threshold: nat,
    entry: Seq<char>,
    specs: Seq<SpecifierModel>,
    i: int,
) -> Seq<WarningModel>
    decreases specs.len() - i,
{
    if i < 0 || i >= specs.len() {
        Seq::empty()
    } else {
        let rest = spec_entry_rows(fs, root, entries, store, threshold, entry, specs, i + 1);
        match spec_resolve(fs, root, entries, entry, specs[i].request) {
            None => rest,
            Some(t) => {
                if spec_reach_size(fs, root, entries, store, t) >= threshold {
                    seq![
                        WarningModel {
                            import_statement: "import '"@ + specs[i].request + "'"@,
                            from_file: spec_strip_root(root, entry),
                            reachable_unique_modules: spec_reach_size(fs, root, entries, store, t),
                            resolved_path: Some(spec_strip_root(root, t)),
                        },
                    ] + rest
                } else {
                    rest
                }
            },
        }
    }
}

/// Every warning one entry contributes: its per-import rows, then a
/// whole-graph row when the entry's own reachable count meets the
/// threshold; an entry without a source contributes nothing.
pub open spec fn spec_entry_warnings(
    fs: Fs,
    root: Seq<char>,
    entries: Seq<(String, Vec<String>)>,
    store: SourceStore,
    threshold: nat,
    entry: Seq<char>,
) -> Seq<WarningModel> {
    match spec_imports(store, entry) {
        None => Seq::empty(),
        Some(specs) => spec_entry_rows(fs, root, entries, store, threshold, entry, specs, 0) + (
        if spec_reach_size(fs, root, entries, store, entry) >= threshold {
            seq![
                WarningModel {
                    import_statement: "Entry file (entire graph)"@,
                    from_file: spec_strip_root(root, entry),
                    reachable_unique_modules: spec_reach_size(fs, root, entries, store, entry),
                    resolved_path: None,
                },
            ]
        } else {
            Seq::empty()
        }),
    }
}

/// The warnings of the whole run, entry by entry from position `i` on.
pub open spec fn spec_run_warnings(
    fs: Fs,
    root: Seq<char>,
    entries: Seq<(String, Vec<String>)>,
    store: SourceStore,
    threshold: nat,
    list: Seq<Seq<char>>,
    i: int,
) -> Seq<WarningModel>
    decreases list.len() - i,
{
    if i < 0 || i >= list.len() {
        Seq::empty()
    } else {
        spec_entry_warnings(fs, root, entries, store, threshold, list[i]) + spec_run_warnings(
            fs,
            root,
            entries,
            store,
            threshold,
            list,
            i + 1,
        )
    }
}

/// The files whose imports the run extracts: everything reachable from
/// some entry that the run holds a source for.
pub open spec fn spec_parsed_union(
    fs: Fs,
    root: Seq<char>,
    entries: Seq<(String, Vec<String>)>,
    store: SourceStore,
    list: Seq<Seq<char>>,
    i: int,
) -> Set<Seq<char>>
    decreases list.len() - i,
{
    if i < 0 || i >= list.len() {
        Set::empty()
    } else {
        spec_parsed_of(fs, root, entries, store, list[i]).union(
            spec_parsed_union(fs, root, entries, store, list, i + 1),
        )
    }
}

/// Analyzes one entry: its whole-graph reachable count and one count per
/// resolved direct import, each compared against the threshold.
#[verifier::rlimit(60)]
fn analyze_entry(
    fs: &Fs,
    root: &str,
    aliases: &AliasTable,
    store: &SourceStore,
    threshold: usize,
    entry: &str,
    import_cache: &mut ImportCache,
    resolve_cache: &mut ResolveCache,
    reachable_cache: &mut ReachableCache,
) -> (r: Vec<Warning>)
    requires
        import_cache_ok(*store, import_cache_view(*old(import_cache))),
        resolve_cache_ok(*fs, root@, aliases.entries@, resolve_cache_view(*old(resolve_cache))),
        reachable_cache_ok(
            *fs,
            root@,
            aliases.entries@,
            *store,
            reachable_cache_view(*old(reachable_cache)),
            import_cache_view(*old(import_cache)),
        ),
    ensures
        r.deep_view() == spec_entry_warnings(
            *fs,
            root@,
            aliases.entries@,
            *store,
            threshold as nat,
            entry@,
        ),
        import_cache_ok(*store, import_cache_view(*final(import_cache))),
        resolve_cache_ok(*fs, root@, aliases.entries@, resolve_cache_view(*final(resolve_cache))),
        reachable_cache_ok(
            *fs,
            root@,
            aliases.entries@,
            *store,
            reachable_cache_view(*final(reachable_cache)),
            import_cache_view(*final(import_cache)),
        ),
        import_cache_view(*final(import_cache)).dom() =~= import_cache_view(
            *old(import_cache),
        ).dom().union(spec_parsed_of(*fs, root@, aliases.entries@, *store, entry@)),
{
    let ghost gfs = *fs;
    let ghost groot = root@;
    let ghost gentries = aliases.entries@;
    let ghost gstore = *store;
    let ghost gthreshold = threshold as nat;
    let ghost dom0 = import_cache_view(*import_cache).dom();
    let mut warnings: Vec<Warning> = Vec::new();
    let reachable = reachable_modules(
        fs,
        root,
        aliases,
        store,
        entry,
        import_cache,
        resolve_cache,
        reachable_cache,
    );
    let rlen = reachable.len();
    proof {
        reachable.deep_view().unique_seq_to_set();
        assert(reachable.deep_view().len() == reachable@.len());
        assert(rlen as nat == spec_reach_size(gfs, groot, gentries, gstore, entry@));
    }
    let rel_entry = strip_root(root, entry);
    let specs = match imports_for(entry, store, import_cache) {
        None => {
            proof {
                assert(warnings.deep_view() =~= spec_entry_warnings(
                    gfs,
                    groot,
                    gentries,
                    gstore,
                    gthreshold,
                    entry@,
                ));
            }
            return warnings;
        },
        Some(specs) => specs,
    };
    let ghost gspecs = specs.deep_view();
    let ghost dome = dom0.union(spec_parsed_of(gfs, groot, gentries, gstore, entry@));
    proof {
        lemma_reachable_self(gfs, groot, gentries, gstore, entry@);
        assert(spec_parsed_of(gfs, groot, gentries, gstore, entry@).contains(entry@));
        assert(import_cache_view(*import_cache).dom() =~= dome);
    }
    let n = specs.len();
    let mut j: usize = 0;
    proof {
        assert(warnings.deep_view() + spec_entry_rows(
            gfs,
            groot,
            gentries,
            gstore,
            gthreshold,
            entry@,
            gspecs,
            0,
        ) =~= spec_entry_rows(gfs, groot, gentries, gstore, gthreshold, entry@, gspecs, 0));
    }
    #[verifier::loop_isolation(false)]
    while j < n
        invariant
            0 <= j <= n,
            n == gspecs.len(),
            specs.deep_view() == gspecs,
            spec_entry_rows(gfs, groot, gentries, gstore, gthreshold, entry@, gspecs, 0)
                == warnings.deep_view() + spec_entry_rows(
                gfs,
                groot,
                gentries,
                gstore,
                gthreshold,
                entry@,
                gspecs,
                j as int,
            ),
            import_cache_ok(gstore, import_cache_view(*import_cache)),
            resolve_cache_ok(gfs, groot, gentries, resolve_cache_view(*resolve_cache)),
            reachable_cache_ok(
                gfs,
                groot,
                gentries,
                gstore,
                reachable_cache_view(*reachable_cache),
                import_cache_view(*import_cache),
            ),
            import_cache_view(*import_cache).dom() =~= dome,
        decreases n - j,
    {
        let s = &specs[j];
        proof {
            assert(gspecs[j as int].request == s@.request);
        }
        let resolved = resolve(fs, root, aliases, entry, s.request.as_str(), resolve_cache);
        if let Some(t) = resolved {
            let ghost gt = t@;
            proof {
                assert(spec_edge(gfs, groot, gentries, gstore, entry@, gt)) by {
                    assert(spec_imports(gstore, entry@) == Some(gspecs));
                    assert(spec_resolve(gfs, groot, gentries, entry@, gspecs[j as int].request)
                        == Some(gt));
                }
                lemma_reachable_self(gfs, groot, gentries, gstore, entry@);
                lemma_reachable_step(gfs, groot, gentries, gstore, entry@, entry@, gt);
                assert forall|x: Seq<char>| #[trigger] spec_parsed_of(
                    gfs,
                    groot,
                    gentries,
                    gstore,
                    gt,
                ).contains(x) implies spec_parsed_of(
                    gfs,
                    groot,
                    gentries,
                    gstore,
                    entry@,
                ).contains(x) by {
                    lemma_reachable_trans(gfs, groot, gentries, gstore, entry@, gt, x);
                }
            }
            let rset = reachable_modules(
                fs,
                root,
                aliases,
                store,
                t.as_str(),
                import_cache,
                resolve_cache,
                reachable_cache,
            );
            proof {
                assert(import_cache_view(*import_cache).dom() =~= dome.union(
                    spec_parsed_of(gfs, groot, gentries, gstore, gt),
                ));
                assert(dome.union(spec_parsed_of(gfs, groot, gentries, gstore, gt)) =~= dome);
            }
            let rset_len = rset.len();
            proof {
                rset.deep_view().unique_seq_to_set();
                assert(rset_len as nat == spec_reach_size(gfs, groot, gentries, gstore, gt));
            }
            if rset_len >= threshold {
                let mut stmt = concat_str("import '", s.request.as_str());
                stmt.append("'");
                proof {
                    assert(stmt@ =~= "import '"@ + gspecs[j as int].request + "'"@);
                }
                let ghost wpre = *&warnings;
                let w = Warning {
                    import_statement: stmt,
                    from_file: rel_entry.clone(),
                    reachable_unique_modules: rset_len,
                    resolved_path: Some(strip_root(root, t.as_str())),
                };
                warnings.push(w);
                proof {
                    lemma_vec_deep_push(wpre, warnings, warnings@[warnings@.len() - 1]);
                }
            }
        }
        proof {
            assert(spec_entry_rows(gfs, groot, gentries, gstore, gthreshold, entry@, gspecs, 0)
                =~= warnings.deep_view() + spec_entry_rows(
                gfs,
                groot,
                gentries,
                gstore,
                gthreshold,
                entry@,
                gspecs,
                j + 1,
            ));
        }
        j += 1;
    }
    proof {
        assert(spec_entry_rows(gfs, groot, gentries, gstore, gthreshold, entry@, gspecs, n as int)
            =~= Seq::<WarningModel>::empty());
        assert(warnings.deep_view() =~= spec_entry_rows(
            gfs,
            groot,
            gentries,
            gstore,
            gthreshold,
            entry@,
            gspecs,
            0,
        ));
    }
    if rlen >= threshold {
        let ghost wpre = *&warnings;
        let w = Warning {
            import_statement: String::from_str("Entry file (entire graph)"),
            from_file: rel_entry,
            reachable_unique_modules: rlen,
            resolved_path: None,
        };
        warnings.push(w);
        proof {
            lemma_vec_deep_push(wpre, warnings, warnings@[warnings@.len() - 1]);
        }
    }
    proof {
        assert(warnings.deep_view() =~= spec_entry_warnings(
            gfs,
            groot,
            gentries,
            gstore,
            gthreshold,
            entry@,
        ));
    }
    warnings
}

/// The whole import-bloat run over an already initialized configuration:
/// entries are selected from the walked candidates, each is analyzed
/// against the threshold, and the warnings are gathered in entry order.
/// The reported file count is the number of distinct files whose imports
/// were extracted.
#[verifier::rlimit(60)]
pub fn run_import_bloat_check(cfg: &Config, fs: &Fs, store: &SourceStore, walked: &Vec<String>) -> (r:
    Result<CheckResult, CheckError>)
    ensures
        match r {
            Ok(res) => {
                &&& cfg.root is Some
                &&& spec_collect_entries(
                    cfg.root->0@,
                    cfg.entry_glob,
                    walked.deep_view(),
                ).len() > 0
                &&& res.warnings.deep_view() == spec_run_warnings(
                    *fs,
                    cfg.root->0@,
                    cfg.tsconfig_paths.entries@,
                    *store,
                    cfg.threshold as nat,
                    spec_collect_entries(cfg.root->0@, cfg.entry_glob, walked.deep_view()),
                    0,
                )
                &&& res.files_analyzed as nat == spec_parsed_union(
                    *fs,
                    cfg.root->0@,
                    cfg.tsconfig_paths.entries@,
                    *store,
                    spec_collect_entries(cfg.root->0@, cfg.entry_glob, walked.deep_view()),
                    0,
                ).len()
            },
            Err(CheckError::ConfigNotInitialized) => cfg.root is None,
            Err(CheckError::NoEntryFiles) => cfg.root is Some && spec_collect_entries(
                cfg.root->0@,
                cfg.entry_glob,
                walked.deep_view(),
            ).len() == 0,
        },
{
    let root = match cfg.root() {
        Some(rt) => rt,
        None => {
            return Err(CheckError::ConfigNotInitialized);
        },
    };
    let ghost gfs = *fs;
    let ghost groot = root@;
    let ghost gentries = cfg.tsconfig_paths.entries@;
    let ghost gstore = *store;
    let ghost gthreshold = cfg.threshold as nat;
    let collector_cfg = CollectorConfig {
        root: root.clone(),
        entry_glob: match &cfg.entry_glob {
            Some(g) => Some(g.clone()),
            None => None,
        },
        tsconfig_paths: AliasTable { entries: Vec::new() },
    };
    let entries = collect_entries(&collector_cfg, walked);
    proof {
        assert(collector_cfg.entry_glob == cfg.entry_glob) by {
            match cfg.entry_glob {
                Some(g) => {
                    assert(collector_cfg.entry_glob->0 == g);
                },
                None => {},
            }
        }
    }
    if entries.len() == 0 {
        return Err(CheckError::NoEntryFiles);
    }
    let ghost glist = entries.deep_view();
    let mut import_cache = ImportCache::new();
    let mut resolve_cache = ResolveCache::new();
    let mut reachable_cache = ReachableCache::new();
    let mut warnings: Vec<Warning> = Vec::new();
    let n = entries.len();
    let mut i: usize = 0;
    proof {
        assert(warnings.deep_view() + spec_run_warnings(
            gfs,
            groot,
            gentries,
            gstore,
            gthreshold,
            glist,
            0,
        ) =~= spec_run_warnings(gfs, groot, gentries, gstore, gthreshold, glist, 0));
        assert(import_cache_view(import_cache).dom() =~= Set::<Seq<char>>::empty());
    }
    #[verifier::loop_isolation(false)]
    while i < n
        invariant
            0 <= i <= n,
            n == glist.len(),
            entries.deep_view() == glist,
            spec_run_warnings(gfs, groot, gentries, gstore, gthreshold, glist, 0)
                == warnings.deep_view() + spec_run_warnings(
                gfs,
                groot,
                gentries,
                gstore,
                gthreshold,
                glist,
                i as int,
            ),
            import_cache_ok(gstore, import_cache_view(import_cache)),
            resolve_cache_ok(gfs, groot, gentries, resolve_cache_view(resolve_cache)),
            reachable_cache_ok(
                gfs,
                groot,
                gentries,
                gstore,
                reachable_cache_view(reachable_cache),
                import_cache_view(import_cache),
            ),
            import_cache_view(import_cache).dom().union(
                spec_parsed_union(gfs, groot, gentries, gstore, glist, i as int),
            ) =~= spec_parsed_union(gfs, groot, gentries, gstore, glist, 0),
        decreases n - i,
    {
        let ghost dpre = import_cache_view(import_cache).dom();
        let ghost wpre = warnings.deep_view();
        let mut entry_warnings = analyze_entry(
            fs,
            root.as_str(),
            &cfg.tsconfig_paths,
            store,
            cfg.threshold,
            entries[i].as_str(),
            &mut import_cache,
            &mut resolve_cache,
            &mut reachable_cache,
        );
        let ghost gw = entry_warnings.deep_view();
        warnings.append(&mut entry_warnings);
        proof {
            assert(entries@[i as int]@ == glist[i as int]);
            assert forall|k: int| 0 <= k < warnings.deep_view().len() implies
                warnings.deep_view()[k] == (wpre + gw)[k] by {
                assert(warnings.deep_view()[k] == warnings@[k]@);
            }
            assert(warnings.deep_view() =~= wpre + gw);
            assert(wpre + (gw + spec_run_warnings(
                gfs,
                groot,
                gentries,
                gstore,
                gthreshold,
                glist,
                i + 1,
            )) =~= warnings.deep_view() + spec_run_warnings(
                gfs,
                groot,
                gentries,
                gstore,
                gthreshold,
                glist,
                i + 1,
            ));
            assert(import_cache_view(import_cache).dom().union(
                spec_parsed_union(gfs, groot, gentries, gstore, glist, i + 1),
            ) =~= dpre.union(spec_parsed_union(gfs, groot, gentries, gstore, glist, i as int)));
        }
        i += 1;
    }
    let files_analyzed = import_cache.len();
    proof {
        assert(spec_run_warnings(gfs, groot, gentries, gstore, gthreshold, glist, n as int)
            =~= Seq::<WarningModel>::empty());
        assert(warnings.deep_view() =~= spec_run_warnings(
            gfs,
            groot,
            gentries,
            gstore,
            gthreshold,
            glist,
            0,
        ));
        assert(spec_parsed_union(gfs, groot, gentries, gstore, glist, n as int) =~= Set::<
            Seq<char>,
        >::empty());
        assert(import_cache_view(import_cache).dom() =~= spec_parsed_union(
            gfs,
            groot,
            gentries,
            gstore,
            glist,
            0,
        ));
    }
    Ok(CheckResult { warnings, files_analyzed })
}

} // verus!
