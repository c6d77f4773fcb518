//! Entry-file selection from the walked candidate list.

use vstd::prelude::*;
use vstd::string::StringExecFns;
use crate::constants::{EXTENSION_COUNT, ext_at, spec_ext};
use crate::pathutil::{spec_strip_root, strip_root};
use crate::resolver::AliasTable;
use crate::strutil::{contains_str, ends_with_str, spec_contains, spec_ends_with};

verus! {

/// What entry collection needs of a run's configuration.
pub struct CollectorConfig {
    pub root: String,
    pub entry_glob: Option<String>,
    pub tsconfig_paths: AliasTable,
}

/// The path ends in a dot followed by the `i`-th analyzed extension.
pub open spec fn spec_has_ext(p: Seq<char>, i: int) -> bool {
    spec_ends_with(p, "."@ + spec_ext(i))
}

/// The path carries one of the analyzed extensions.
pub open spec fn spec_has_js_ts_ext(p: Seq<char>) -> bool {
    exists|i: int| 0 <= i < EXTENSION_COUNT && spec_has_ext(p, i)
}

/// Whether one walked file is selected as an entry: not a test or spec
/// file, carrying an analyzed extension, and matching the glob substring
/// against its root-relative path when a glob is set, else lying under a
/// `src` path segment.
pub open spec fn spec_is_entry(root: Seq<char>, glob: Option<String>, p: Seq<char>) -> bool {
    &&& !spec_contains(p, ".test."@)
    &&& !spec_contains(p, ".spec."@)
    &&& spec_has_js_ts_ext(p)
    &&& match glob {
        Some(g) => spec_contains(spec_strip_root(root, p), g@),
        None => spec_contains(p, "/src/"@),
    }
}

/// The walked candidates that are entries, in walk order.
pub open spec fn spec_collect_entries(
    root: Seq<char>,
    glob: Option<String>,
    candidates: Seq<Seq<char>>,
) -> Seq<Seq<char>>
    decreases candidates.len(),
{
    if candidates.len() == 0 {
        Seq::empty()
    } else {
        let rest = spec_collect_entries(root, glob, candidates.drop_first());
        if spec_is_entry(root, glob, candidates[0]) {
            seq![candidates[0]] + rest
        } else {
            rest
        }
    }
}

fn has_js_ts_ext(p: &str) -> (b: bool)
    ensures
        b == spec_has_js_ts_ext(p@),
{
    let mut i: usize = 0;
    while i < EXTENSION_COUNT
        invariant
            0 <= i <= EXTENSION_COUNT,
            forall|j: int| 0 <= j < i ==> !spec_has_ext(p@, j),
        decreases EXTENSION_COUNT - i,
    {
        let e = ext_at(i);
        let mut suffix = String::new();
        suffix.append(".");
        suffix.append(e.as_str());
        proof {
            assert(suffix@ =~= "."@ + spec_ext(i as int));
        }
        if ends_with_str(p, suffix.as_str()) {
            proof {
                assert(spec_has_ext(p@, i as int));
            }
            return true;
        }
        i += 1;
    }
    false
}

fn is_entry(root: &str, glob: &Option<String>, p: &str) -> (b: bool)
    ensures
        b == spec_is_entry(root@, match glob {
            Some(g) => Some(*g),
            None => None,
        }, p@),
{
    if contains_str(p, ".test.") {
        return false;
    }
    if contains_str(p, ".spec.") {
        return false;
    }
    if !has_js_ts_ext(p) {
        return false;
    }
    match glob {
        Some(g) => {
            let rel = strip_root(root, p);
            contains_str(rel.as_str(), g.as_str())
        },
        None => contains_str(p, "/src/"),
    }
}

/// Selects the entry files among the walked candidates, keeping walk
/// order: files under a `src` segment, or, with a glob set, files whose
/// root-relative path contains it; test and spec files and files without
/// an analyzed extension are never entries.
pub fn collect_entries(cfg: &CollectorConfig, candidates: &Vec<String>) -> (r: Vec<String>)
    ensures
        r.deep_view() == spec_collect_entries(
            cfg.root@,
            cfg.entry_glob,
            candidates.deep_view(),
        ),
{
    let mut out: Vec<String> = Vec::new();
    let n = candidates.len();
    let mut i: usize = 0;
    proof {
        assert(candidates.deep_view().skip(0) =~= candidates.deep_view());
        assert(out.deep_view() + spec_collect_entries(
            cfg.root@,
            cfg.entry_glob,
            candidates.deep_view().skip(0),
        ) =~= spec_collect_entries(cfg.root@, cfg.entry_glob, candidates.deep_view()));
    }
    #[verifier::loop_isolation(false)]
    while i < n
        invariant
            0 <= i <= n,
            n == candidates@.len(),
            spec_collect_entries(cfg.root@, cfg.entry_glob, candidates.deep_view())
                == out.deep_view() + spec_collect_entries(
                cfg.root@,
                cfg.entry_glob,
                candidates.deep_view().skip(i as int),
            ),
        decreases n - i,
    {
        let ghost opre = out.deep_view();
        let ghost tail = candidates.deep_view().skip(i as int);
        proof {
            assert(tail[0] == candidates.deep_view()[i as int]);
            assert(tail.drop_first() =~= candidates.deep_view().skip(i + 1));
        }
        if is_entry(cfg.root.as_str(), &cfg.entry_glob, candidates[i].as_str()) {
            out.push(candidates[i].clone());
            proof {
                assert(out.deep_view().len() == opre.len() + 1);
                let ghost pn = opre.len() as int;
                assert(out.deep_view()[pn] == out@[pn]@);
                assert forall|k: int| 0 <= k < opre.len() implies out.deep_view()[k] == opre[k] by {
                    assert(out.deep_view()[k] == out@[k]@);
                }
                assert(out.deep_view() =~= opre.push(candidates.deep_view()[i as int]));
                assert(opre + (seq![candidates.deep_view()[i as int]] + spec_collect_entries(
                    cfg.root@,
                    cfg.entry_glob,
                    candidates.deep_view().skip(i + 1),
                )) =~= out.deep_view() + spec_collect_entries(
                    cfg.root@,
                    cfg.entry_glob,
                    candidates.deep_view().skip(i + 1),
                ));
            }
        }
        i += 1;
    }
    proof {
        assert(candidates.deep_view().skip(n as int) =~= Seq::<Seq<char>>::empty());
        assert(out.deep_view() + Seq::<Seq<char>>::empty() =~= out.deep_view());
    }
    out
}

} // verus!
