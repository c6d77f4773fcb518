//! A plain-data model of the part of the scanned disk that resolution
//! consults: which paths are regular files, which are directories, and the
//! fields read out of each package directory's manifest.
//!
//! The surrounding application fills one `Fs` value per run from the real
//! directory tree; every path stored is absolute and canonical.

use vstd::prelude::*;
use crate::strutil::{str_eq, vec_contains_string};

verus! {

/// The condition table a manifest's `exports` field can map `"."` to.
pub struct ExportConditions {
    pub import_target: Option<String>,
    pub require_target: Option<String>,
    pub default_target: Option<String>,
}

/// What a manifest's `exports` object maps `"."` to: either a path
/// string or a table of conditions.
pub enum DotExport {
    Single(String),
    Conditions(ExportConditions),
}

/// The `exports` field itself: a bare path string, or an object whose
/// `"."` entry (when present and of a shape the resolver reads) is kept.
pub enum ExportsField {
    Single(String),
    Table(Option<DotExport>),
}

/// The fields of a `package.json` that package resolution consults.
/// A directory appears in `Fs::packages` exactly when it holds a
/// `package.json` that parses as JSON.
pub struct PackageManifest {
    pub exports: Option<ExportsField>,
    pub module_field: Option<String>,
    pub main_field: Option<String>,
}

/// The filesystem model: sets of file and directory paths, plus parsed
/// manifests keyed by package directory.
pub struct Fs {
    pub files: Vec<String>,
    pub dirs: Vec<String>,
    pub packages: Vec<(String, PackageManifest)>,
}

/// First manifest recorded for directory `k`, if any.
pub open spec fn spec_pkg_lookup(s: Seq<(String, PackageManifest)>, k: Seq<char>) -> Option<
    PackageManifest,
>
    decreases s.len(),
{
    if s.len() == 0 {
        None
    } else if s[0].0@ == k {
        Some(s[0].1)
    } else {
        spec_pkg_lookup(s.drop_first(), k)
    }
}

impl Fs {
    pub open spec fn spec_is_file(self, p: Seq<char>) -> bool {
        self.files.deep_view().contains(p)
    }

    /// Every path the model knows, file or directory, as a finite set.
    pub open spec fn spec_universe(self) -> Set<Seq<char>> {
        self.files.deep_view().to_set().union(self.dirs.deep_view().to_set())
    }

    pub proof fn lemma_universe(self)
        ensures
            self.spec_universe().finite(),
            forall|p: Seq<char>| self.spec_exists(p) <==> self.spec_universe().contains(p),
    {
        vstd::seq_lib::seq_to_set_is_finite::<Seq<char>>(self.files.deep_view());
        vstd::seq_lib::seq_to_set_is_finite::<Seq<char>>(self.dirs.deep_view());
    }

    pub open spec fn spec_is_dir(self, p: Seq<char>) -> bool {
        self.dirs.deep_view().contains(p)
    }

    pub open spec fn spec_exists(self, p: Seq<char>) -> bool {
        self.spec_is_file(p) || self.spec_is_dir(p)
    }

    pub open spec fn spec_manifest(self, dir: Seq<char>) -> Option<PackageManifest> {
        spec_pkg_lookup(self.packages@, dir)
    }

    pub fn new() -> (r: Fs)
        ensures
            r.files.deep_view() == Seq::<Seq<char>>::empty(),
            r.dirs.deep_view() == Seq::<Seq<char>>::empty(),
            r.packages@ == Seq::<(String, PackageManifest)>::empty(),
    {
        let r = Fs { files: Vec::new(), dirs: Vec::new(), packages: Vec::new() };
        proof {
            assert(r.files.deep_view() =~= Seq::<Seq<char>>::empty());
            assert(r.dirs.deep_view() =~= Seq::<Seq<char>>::empty());
        }
        r
    }

    pub fn add_file(&mut self, p: String)
        ensures
            final(self).files.deep_view() == old(self).files.deep_view().push(p@),
            final(self).dirs == old(self).dirs,
            final(self).packages == old(self).packages,
    {
        let ghost before = self.files.deep_view();
        self.files.push(p);
        proof {
            assert(self.files.deep_view() =~= before.push(self.files@[self.files@.len() - 1]@));
        }
    }

    pub fn add_dir(&mut self, p: String)
        ensures
            final(self).dirs.deep_view() == old(self).dirs.deep_view().push(p@),
            final(self).files == old(self).files,
            final(self).packages == old(self).packages,
    {
        let ghost before = self.dirs.deep_view();
        self.dirs.push(p);
        proof {
            assert(self.dirs.deep_view() =~= before.push(self.dirs@[self.dirs@.len() - 1]@));
        }
    }

    pub fn add_package(&mut self, dir: String, manifest: PackageManifest)
        ensures
            final(self).packages@ == old(self).packages@.push((dir, manifest)),
            final(self).files == old(self).files,
            final(self).dirs == old(self).dirs,
    {
        self.packages.push((dir, manifest));
    }

    pub fn is_file(&self, p: &str) -> (b: bool)
        ensures
            b == self.spec_is_file(p@),
    {
        vec_contains_string(&self.files, p)
    }

    pub fn is_dir(&self, p: &str) -> (b: bool)
        ensures
            b == self.spec_is_dir(p@),
    {
        vec_contains_string(&self.dirs, p)
    }

    pub fn path_exists(&self, p: &str) -> (b: bool)
        ensures
            b == self.spec_exists(p@),
    {
        self.is_file(p) || self.is_dir(p)
    }

    pub fn manifest_for<'a>(&'a self, dir: &str) -> (r: Option<&'a PackageManifest>)
        ensures
            match r {
                Some(m) => self.spec_manifest(dir@) == Some(*m),
                None => self.spec_manifest(dir@) is None,
            },
    {
        let n = self.packages.len();
        let mut i: usize = 0;
        proof {
            assert(self.packages@.skip(0) =~= self.packages@);
        }
        while i < n
            invariant
                0 <= i <= n,
                n == self.packages@.len(),
                spec_pkg_lookup(self.packages@, dir@) == spec_pkg_lookup(
                    self.packages@.skip(i as int),
                    dir@,
                ),
        decreases n - i,
        {
            let entry = &self.packages[i];
            proof {
                assert(self.packages@.skip(i as int)[0] == self.packages@[i as int]);
            }
            if str_eq(entry.0.as_str(), dir) {
                return Some(&entry.1);
            }
            proof {
                assert(self.packages@.skip(i as int).drop_first() =~= self.packages@.skip(i + 1));
            }
            i += 1;
        }
        proof {
            assert(self.packages@.skip(n as int) =~= Seq::<(String, PackageManifest)>::empty());
        }
        None
    }
}

} // verus!
