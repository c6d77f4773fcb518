//! The four shared memo tables of a run, backed by `dashmap::DashMap`.
//!
//! Each table is held in a struct of this crate whose contents Verus sees
//! only through an abstract map view; the methods are trusted wrappers
//! around the map's `get`, `insert` and `len`. An insert under a key is
//! atomic and entries are never removed during a run, so the map view only
//! ever grows.

use vstd::prelude::*;
use crate::types::Specifier;

verus! {

/// Parsed-import memo: file path to the specifier list extracted from it.
#[verifier::external_body]
pub struct ImportCache {
    inner: dashmap::DashMap<String, Vec<Specifier>>,
}

pub uninterp spec fn import_cache_view(c: ImportCache) -> Map<
    Seq<char>,
    Seq<crate::types::SpecifierModel>,
>;

/// The view of a cache that holds nothing yet.
pub open spec fn import_cache_empty() -> Map<Seq<char>, Seq<crate::types::SpecifierModel>> {
    Map::empty()
}

impl ImportCache {
    /// Relies on dashmap::DashMap::new: a freshly built map holds nothing.
    #[verifier::external_body]
    pub fn new() -> (r: ImportCache)
        ensures
            import_cache_view(r) == import_cache_empty(),
    {
        ImportCache { inner: dashmap::DashMap::new() }
    }

    /// Relies on dashmap::DashMap::get: returns the value stored under an
    /// equal key, or nothing when no such entry exists.
    #[verifier::external_body]
    pub fn get(&self, file: &str) -> (r: Option<Vec<Specifier>>)
        ensures
            match r {
                Some(v) => import_cache_view(*self).contains_key(file@) && v.deep_view()
                    == import_cache_view(*self)[file@],
                None => !import_cache_view(*self).contains_key(file@),
            },
    {
        self.inner.get(file).map(|e| e.value().clone())
    }

    /// Relies on dashmap::DashMap::insert: afterwards the key maps to the
    /// given value.
    #[verifier::external_body]
    pub fn insert(&mut self, file: String, specs: Vec<Specifier>)
        ensures
            import_cache_view(*final(self)) == import_cache_view(*old(self)).insert(
                file@,
                specs.deep_view(),
            ),
    {
        self.inner.insert(file, specs);
    }

    /// Relies on dashmap::DashMap::len: the number of entries, one per
    /// distinct key.
    #[verifier::external_body]
    pub fn len(&self) -> (n: usize)
        ensures
            n == import_cache_view(*self).dom().len(),
    {
        self.inner.len()
    }
}

/// Resolution memo: `(importing file, request)` to the resolution outcome,
/// where `None` records that the request did not resolve.
#[verifier::external_body]
pub struct ResolveCache {
    inner: dashmap::DashMap<(String, String), Option<String>>,
}

pub uninterp spec fn resolve_cache_view(c: ResolveCache) -> Map<
    (Seq<char>, Seq<char>),
    Option<Seq<char>>,
>;

/// The view of a cache that holds nothing yet.
pub open spec fn resolve_cache_empty() -> Map<(Seq<char>, Seq<char>), Option<Seq<char>>> {
    Map::empty()
}

impl ResolveCache {
    /// Relies on dashmap::DashMap::new: a freshly built map holds nothing.
    #[verifier::external_body]
    pub fn new() -> (r: ResolveCache)
        ensures
            resolve_cache_view(r) == resolve_cache_empty(),
    {
        ResolveCache { inner: dashmap::DashMap::new() }
    }

    /// Relies on dashmap::DashMap::get: returns the value stored under an
    /// equal key, or nothing when no such entry exists.
    #[verifier::external_body]
    pub fn get(&self, file: &str, request: &str) -> (r: Option<Option<String>>)
        ensures
            match r {
                Some(v) => resolve_cache_view(*self).contains_key((file@, request@))
                    && v.deep_view() == resolve_cache_view(*self)[(file@, request@)],
                None => !resolve_cache_view(*self).contains_key((file@, request@)),
            },
    {
        self.inner.get(&(file.to_string(), request.to_string())).map(|e| e.value().clone())
    }

    /// Relies on dashmap::DashMap::insert: afterwards the key maps to the
    /// given value.
    #[verifier::external_body]
    pub fn insert(&mut self, file: String, request: String, value: Option<String>)
        ensures
            resolve_cache_view(*final(self)) == resolve_cache_view(*old(self)).insert(
                (file@, request@),
                value.deep_view(),
            ),
    {
        self.inner.insert((file, request), value);
    }

    /// Relies on dashmap::DashMap::len: the number of entries, one per
    /// distinct key.
    #[verifier::external_body]
    pub fn len(&self) -> (n: usize)
        ensures
            n == resolve_cache_view(*self).dom().len(),
    {
        self.inner.len()
    }
}

/// Reachability memo: start file to the ordered, duplicate-free list of
/// files reachable from it.
#[verifier::external_body]
pub struct ReachableCache {
    inner: dashmap::DashMap<String, Vec<String>>,
}

pub uninterp spec fn reachable_cache_view(c: ReachableCache) -> Map<Seq<char>, Seq<Seq<char>>>;

/// The view of a cache that holds nothing yet.
pub open spec fn reachable_cache_empty() -> Map<Seq<char>, Seq<Seq<char>>> {
    Map::empty()
}

impl ReachableCache {
    /// Relies on dashmap::DashMap::new: a freshly built map holds nothing.
    #[verifier::external_body]
    pub fn new() -> (r: ReachableCache)
        ensures
            reachable_cache_view(r) == reachable_cache_empty(),
    {
        ReachableCache { inner: dashmap::DashMap::new() }
    }

    /// Relies on dashmap::DashMap::get: returns the value stored under an
    /// equal key, or nothing when no such entry exists.
    #[verifier::external_body]
    pub fn get(&self, file: &str) -> (r: Option<Vec<String>>)
        ensures
            match r {
                Some(v) => reachable_cache_view(*self).contains_key(file@) && v.deep_view()
                    == reachable_cache_view(*self)[file@],
                None => !reachable_cache_view(*self).contains_key(file@),
            },
    {
        self.inner.get(file).map(|e| e.value().clone())
    }

    /// Relies on dashmap::DashMap::insert: afterwards the key maps to the
    /// given value.
    #[verifier::external_body]
    pub fn insert(&mut self, file: String, reachable: Vec<String>)
        ensures
            reachable_cache_view(*final(self)) == reachable_cache_view(*old(self)).insert(
                file@,
                reachable.deep_view(),
            ),
    {
        self.inner.insert(file, reachable);
    }

    /// Relies on dashmap::DashMap::len: the number of entries, one per
    /// distinct key.
    #[verifier::external_body]
    pub fn len(&self) -> (n: usize)
        ensures
            n == reachable_cache_view(*self).dom().len(),
    {
        self.inner.len()
    }
}

/// Depth memo: file to its computed, cycle-truncated import depth.
#[verifier::external_body]
pub struct DepthCache {
    inner: dashmap::DashMap<String, usize>,
}

pub uninterp spec fn depth_cache_view(c: DepthCache) -> Map<Seq<char>, usize>;

/// The view of a cache that holds nothing yet.
pub open spec fn depth_cache_empty() -> Map<Seq<char>, usize> {
    Map::empty()
}

impl DepthCache {
    /// Relies on dashmap::DashMap::new: a freshly built map holds nothing.
    #[verifier::external_body]
    pub fn new() -> (r: DepthCache)
        ensures
            depth_cache_view(r) == depth_cache_empty(),
    {
        DepthCache { inner: dashmap::DashMap::new() }
    }

    /// Relies on dashmap::DashMap::get: returns the value stored under an
    /// equal key, or nothing when no such entry exists.
    #[verifier::external_body]
    pub fn get(&self, file: &str) -> (r: Option<usize>)
        ensures
            match r {
                Some(v) => depth_cache_view(*self).contains_key(file@) && v == depth_cache_view(
                    *self,
                )[file@],
                None => !depth_cache_view(*self).contains_key(file@),
            },
    {
        self.inner.get(file).map(|e| *e.value())
    }

    /// Relies on dashmap::DashMap::insert: afterwards the key maps to the
    /// given value.
    #[verifier::external_body]
    pub fn insert(&mut self, file: String, depth: usize)
        ensures
            depth_cache_view(*final(self)) == depth_cache_view(*old(self)).insert(file@, depth),
    {
        self.inner.insert(file, depth);
    }

    /// Relies on dashmap::DashMap::len: the number of entries, one per
    /// distinct key.
    #[verifier::external_body]
    pub fn len(&self) -> (n: usize)
        ensures
            n == depth_cache_view(*self).dom().len(),
    {
        self.inner.len()
    }
}

} // verus!
