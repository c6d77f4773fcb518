//! Building the alias table out of the workspace's tsconfig files.

use vstd::prelude::*;
use vstd::pervasive::VecAdditionalExecFns;
use vstd::string::StringExecFns;
use crate::pathutil::{join_path, spec_join};
use crate::resolver::AliasTable;
use crate::strutil::{spec_trim_end, trim_end_str};

verus! {

/// What one `tsconfig.json` contributes after JSON parsing: the directory
/// it sits in, its `compilerOptions.baseUrl`, and its `compilerOptions.paths`
/// entries with the string members of each target array, in file order.
pub struct TsconfigFile {
    pub dir: String,
    pub base_url: Option<String>,
    pub paths: Vec<(String, Vec<String>)>,
}

/// The alias table as a mathematical sequence of `(alias, targets)` pairs.
pub open spec fn alias_table_view(t: AliasTable) -> Seq<(Seq<char>, Seq<Seq<char>>)> {
    t.entries@.map_values(|e: (String, Vec<String>)| (e.0@, e.1.deep_view()))
}

/// The base path of one tsconfig: its directory joined with its `baseUrl`,
/// which defaults to `"."`.
pub open spec fn spec_tsconfig_base(dir: Seq<char>, base_url: Option<String>) -> Seq<char> {
    spec_join(dir, match base_url {
        Some(b) => b@,
        None => "."@,
    })
}

/// Each target with its trailing `/*` stripped, joined under the base.
pub open spec fn spec_targets_view(base: Seq<char>, targets: Seq<Seq<char>>) -> Seq<Seq<char>> {
    targets.map_values(|t: Seq<char>| spec_join(base, spec_trim_end(t, "/*"@)))
}

/// Insertion with replacement: an existing alias keeps its place with the
/// new targets; a new alias is appended.
pub open spec fn spec_table_insert(
    tv: Seq<(Seq<char>, Seq<Seq<char>>)>,
    key: Seq<char>,
    val: Seq<Seq<char>>,
) -> Seq<(Seq<char>, Seq<Seq<char>>)>
    decreases tv.len(),
{
    if tv.len() == 0 {
        seq![(key, val)]
    } else if tv[0].0 == key {
        seq![(key, val)] + tv.drop_first()
    } else {
        seq![tv[0]] + spec_table_insert(tv.drop_first(), key, val)
    }
}

/// One tsconfig's `paths` entries applied to the table from position `j`
/// on: key and targets with `/*` stripped, targets joined under the base;
/// an entry with no targets contributes nothing.
pub open spec fn spec_apply_aliases(
    tv: Seq<(Seq<char>, Seq<Seq<char>>)>,
    base: Seq<char>,
    paths: Seq<(String, Vec<String>)>,
    j: int,
) -> Seq<(Seq<char>, Seq<Seq<char>>)>
    decreases paths.len() - j,
{
    if j < 0 || j >= paths.len() {
        tv
    } else {
        let tv2 = if paths[j].1@.len() == 0 {
            tv
        } else {
            spec_table_insert(
                tv,
                spec_trim_end(paths[j].0@, "/*"@),
                spec_targets_view(base, paths[j].1.deep_view()),
            )
        };
        spec_apply_aliases(tv2, base, paths, j + 1)
    }
}

/// The whole table: every tsconfig applied in discovery order.
pub open spec fn spec_alias_table(files: Seq<TsconfigFile>, i: int, tv: Seq<(Seq<char>, Seq<Seq<char>>)>) -> Seq<
    (Seq<char>, Seq<Seq<char>>),
>
    decreases files.len() - i,
{
    if i < 0 || i >= files.len() {
        tv
    } else {
        let base = spec_tsconfig_base(files[i].dir@, files[i].base_url);
        let tv2 = spec_apply_aliases(tv, base, files[i].paths@, 0);
        spec_alias_table(files, i + 1, tv2)
    }
}

fn alias_table_insert(table: &mut AliasTable, key: String, targets: Vec<String>)
    ensures
        alias_table_view(*final(table)) == spec_table_insert(
            alias_table_view(*old(table)),
            key@,
            targets.deep_view(),
        ),
{
    let ghost tv0 = alias_table_view(*table);
    let n = table.entries.len();
    let mut i: usize = 0;
    proof {
        assert(tv0.take(0) =~= Seq::<(Seq<char>, Seq<Seq<char>>)>::empty());
        assert(tv0.skip(0) =~= tv0);
        assert(tv0.take(0) + spec_table_insert(tv0.skip(0), key@, targets.deep_view())
            =~= spec_table_insert(tv0, key@, targets.deep_view()));
    }
    #[verifier::loop_isolation(false)]
    while i < n
        invariant
            0 <= i <= n,
            n == table.entries@.len(),
            *table == *old(table),
            forall|k: int| 0 <= k < i ==> tv0[k].0 != key@,
            spec_table_insert(tv0, key@, targets.deep_view()) == tv0.take(i as int)
                + spec_table_insert(tv0.skip(i as int), key@, targets.deep_view()),
        decreases n - i,
    {
        proof {
            assert(tv0.skip(i as int)[0] == tv0[i as int]);
            assert(tv0[i as int].0 == table.entries@[i as int].0@);
        }
        if crate::strutil::str_eq(table.entries[i].0.as_str(), key.as_str()) {
            let ghost gkey = key@;
            let ghost gval = targets.deep_view();
            table.entries.set(i, (key, targets));
            proof {
                assert(spec_table_insert(tv0.skip(i as int), gkey, gval) == seq![(gkey, gval)]
                    + tv0.skip(i as int).drop_first());
                assert(tv0.skip(i as int).drop_first() =~= tv0.skip(i + 1));
                assert(alias_table_view(*table) =~= tv0.take(i as int) + (seq![(gkey, gval)]
                    + tv0.skip(i + 1)));
            }
            return ;
        }
        proof {
            assert(spec_table_insert(tv0.skip(i as int), key@, targets.deep_view()) == seq![
                tv0.skip(i as int)[0],
            ] + spec_table_insert(tv0.skip(i as int).drop_first(), key@, targets.deep_view()));
            assert(tv0.skip(i as int).drop_first() =~= tv0.skip(i + 1));
            assert(tv0.take(i as int) + (seq![tv0[i as int]] + spec_table_insert(
                tv0.skip(i + 1),
                key@,
                targets.deep_view(),
            )) =~= tv0.take(i + 1) + spec_table_insert(tv0.skip(i + 1), key@, targets.deep_view()));
        }
        i += 1;
    }
    let ghost gkey = key@;
    let ghost gval = targets.deep_view();
    table.entries.push((key, targets));
    proof {
        assert(tv0.skip(n as int) =~= Seq::<(Seq<char>, Seq<Seq<char>>)>::empty());
        assert(spec_table_insert(tv0.skip(n as int), gkey, gval) =~= seq![(gkey, gval)]);
        assert(alias_table_view(*table) =~= tv0.take(n as int) + seq![(gkey, gval)]);
        assert(tv0.take(n as int) =~= tv0);
    }
}

/// The targets of one alias entry, each with its trailing `/*` stripped
/// and joined under the base path.
fn resolved_targets(base: &str, targets: &Vec<String>) -> (r: Vec<String>)
    ensures
        r.deep_view() == spec_targets_view(base@, targets.deep_view()),
{
    let mut out: Vec<String> = Vec::new();
    let ghost goal = spec_targets_view(base@, targets.deep_view());
    let n = targets.len();
    let mut i: usize = 0;
    proof {
        assert(out.deep_view() =~= goal.take(0));
    }
    #[verifier::loop_isolation(false)]
    while i < n
        invariant
            0 <= i <= n,
            n == targets@.len(),
            goal.len() == n,
            out.deep_view() =~= goal.take(i as int),
        decreases n - i,
    {
        let trimmed = trim_end_str(targets[i].as_str(), "/*");
        let joined = join_path(base, trimmed.as_str());
        let ghost opre = out.deep_view();
        out.push(joined);
        proof {
            assert(out.deep_view().len() == i + 1);
            assert(out.deep_view()[i as int] == out@[i as int]@);
            assert forall|k: int| 0 <= k < i implies out.deep_view()[k] == opre[k] by {
                assert(out.deep_view()[k] == out@[k]@);
            }
            assert(targets.deep_view()[i as int] == targets@[i as int]@);
            assert(goal[i as int] == spec_join(
                base@,
                spec_trim_end(targets.deep_view()[i as int], "/*"@),
            ));
            assert(out.deep_view()[i as int] == goal[i as int]);
            assert(out.deep_view() =~= goal.take(i + 1));
        }
        i += 1;
    }
    proof {
        assert(goal.take(n as int) =~= goal);
    }
    out
}

/// The alias table of the run: every discovered tsconfig's path aliases,
/// keys and targets with trailing `/*` stripped, targets joined under the
/// tsconfig's base path, later files overriding earlier ones per alias.
pub fn read_tsconfig_paths(root: &str, files: &Vec<TsconfigFile>) -> (r: AliasTable)
    ensures
        alias_table_view(r) == spec_alias_table(files@, 0, Seq::empty()),
{
    let mut table = AliasTable { entries: Vec::new() };
    proof {
        assert(alias_table_view(table) =~= Seq::<(Seq<char>, Seq<Seq<char>>)>::empty());
    }
    let n = files.len();
    let mut i: usize = 0;
    #[verifier::loop_isolation(false)]
    while i < n
        invariant
            0 <= i <= n,
            n == files@.len(),
            spec_alias_table(files@, 0, Seq::empty()) == spec_alias_table(
                files@,
                i as int,
                alias_table_view(table),
            ),
        decreases n - i,
    {
        let f = &files[i];
        let base = match &f.base_url {
            Some(b) => join_path(f.dir.as_str(), b.as_str()),
            None => join_path(f.dir.as_str(), "."),
        };
        proof {
            assert(base@ == spec_tsconfig_base(files@[i as int].dir@, files@[i as int].base_url));
        }
        let m = f.paths.len();
        let mut j: usize = 0;
        #[verifier::loop_isolation(false)]
        while j < m
            invariant
                0 <= j <= m,
                m == f.paths@.len(),
                base@ == spec_tsconfig_base(files@[i as int].dir@, files@[i as int].base_url),
                f == &files@[i as int],
                spec_alias_table(files@, 0, Seq::empty()) == spec_alias_table(
                    files@,
                    i + 1,
                    spec_apply_aliases(alias_table_view(table), base@, f.paths@, j as int),
                ),
            decreases m - j,
        {
            let entry = &f.paths[j];
            if entry.1.len() > 0 {
                let key = trim_end_str(entry.0.as_str(), "/*");
                let vals = resolved_targets(base.as_str(), &entry.1);
                alias_table_insert(&mut table, key, vals);
            }
            j += 1;
        }
        i += 1;
    }
    proof {
        assert(spec_alias_table(files@, n as int, alias_table_view(table)) == alias_table_view(
            table,
        ));
    }
    table
}

} // verus!
