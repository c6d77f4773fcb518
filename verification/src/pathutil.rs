//! Verified lexical path handling over `/`-separated path strings, and the
//! trusted wrapper around the lexical normalizer.

use vstd::prelude::*;
use vstd::string::StrSliceExecFns;
use vstd::string::StringExecFns;
use crate::strutil::{concat_str, last_index_of, spec_starts_with, starts_with_str, substring};

verus! {

/// What `path_clean::clean` returns for a path: slashes reduced, `.` and
/// `..` elements resolved lexically. Named rather than written out; the
/// function depends on its argument alone.
pub uninterp spec fn spec_cleaned(s: Seq<char>) -> Seq<char>;

/// Relies on path_clean::clean: lexical normalization of a path, a pure
/// function of the path string.
#[verifier::external_body]
pub fn clean_path(s: &str) -> (r: String)
    ensures
        r@ == spec_cleaned(s@),
{
    path_clean::clean(s).to_string_lossy().into_owned()
}

/// The directory part of a path: everything before the last `/`, with the
/// root written `"/"`; `None` for a path without `/`, or for `"/"` itself.
/// This follows `Path::parent` on absolute paths.
pub open spec fn spec_dirname(p: Seq<char>) -> Option<Seq<char>> {
    if exists|i: int| 0 <= i < p.len() && p[i] == '/' {
        let i = choose|i: int|
            0 <= i < p.len() && p[i] == '/' && forall|j: int| i < j < p.len() ==> p[j] != '/';
        if p.len() == 1 {
            None
        } else if i == 0 {
            Some(p.subrange(0, 1))
        } else {
            Some(p.subrange(0, i))
        }
    } else {
        None
    }
}

pub fn dirname(p: &str) -> (r: Option<String>)
    ensures
        match r {
            Some(d) => spec_dirname(p@) == Some(d@),
            None => spec_dirname(p@) is None,
        },
{
    let pl = p.unicode_len();
    match last_index_of(p, '/') {
        Some(i) => {
            proof {
                let wit = choose|k: int|
                    0 <= k < p@.len() && p@[k] == '/' && forall|j: int|
                        k < j < p@.len() ==> p@[j] != '/';
                assert(p@[i as int] == '/');
                if wit != i {
                    if wit < i {
                        assert(p@[i as int] != '/');
                    } else {
                        assert(p@[wit] != '/');
                    }
                }
                assert(wit == i);
            }
            if pl == 1 {
                None
            } else if i == 0 {
                Some(substring(p, 0, 1))
            } else {
                Some(substring(p, 0, i))
            }
        },
        None => None,
    }
}

/// `Path::join` on `/`-separated strings: an absolute right side replaces
/// the left; otherwise the two are joined with a single separator.
pub open spec fn spec_join(a: Seq<char>, b: Seq<char>) -> Seq<char> {
    if b.len() > 0 && b[0] == '/' {
        b
    } else if a.len() == 0 {
        b
    } else if a.len() > 0 && a[a.len() - 1] == '/' {
        a + b
    } else {
        a + "/"@ + b
    }
}

pub fn join_path(a: &str, b: &str) -> (r: String)
    ensures
        r@ == spec_join(a@, b@),
{
    let al = a.unicode_len();
    let bl = b.unicode_len();
    if bl > 0 && b.get_char(0) == '/' {
        String::from_str(b)
    } else if al == 0 {
        String::from_str(b)
    } else if a.get_char(al - 1) == '/' {
        concat_str(a, b)
    } else {
        let mut r = concat_str(a, "/");
        r.append(b);
        proof {
            assert(a@ + "/"@ + b@ =~= (a@ + "/"@) + b@);
        }
        r
    }
}

/// A request is relative when it starts with `./`, `../` or `/`.
pub open spec fn spec_is_relative(r: Seq<char>) -> bool {
    spec_starts_with(r, "./"@) || spec_starts_with(r, "../"@) || spec_starts_with(r, "/"@)
}

pub fn is_relative_request(r: &str) -> (b: bool)
    ensures
        b == spec_is_relative(r@),
{
    starts_with_str(r, "./") || starts_with_str(r, "../") || starts_with_str(r, "/")
}

/// `root` is a path prefix of `p` at a component boundary.
pub open spec fn spec_root_strips(root: Seq<char>, p: Seq<char>) -> bool {
    spec_starts_with(p, root) && (p.len() == root.len() || root.len() == 0 || p[root.len() - 1]
        == '/' || p[root.len() as int] == '/')
}

pub fn root_strips(root: &str, p: &str) -> (b: bool)
    ensures
        b == spec_root_strips(root@, p@),
{
    let rl = root.unicode_len();
    let pl = p.unicode_len();
    starts_with_str(p, root) && (pl == rl || rl == 0 || p.get_char(rl - 1) == '/' || p.get_char(rl)
        == '/')
}

/// `Path::strip_prefix` on `/`-separated strings, limited to the shapes the
/// checkers use: the whole of `p` when `root` is not a proper path prefix,
/// else the remainder with its leading separators removed.
pub open spec fn spec_strip_root(root: Seq<char>, p: Seq<char>) -> Seq<char> {
    if spec_root_strips(root, p) {
        crate::strutil::spec_trim_start_char(p.skip(root.len() as int), '/')
    } else {
        p
    }
}

pub fn strip_root(root: &str, p: &str) -> (r: String)
    ensures
        r@ == spec_strip_root(root@, p@),
{
    let rl = root.unicode_len();
    let pl = p.unicode_len();
    if root_strips(root, p) {
        let rest = substring(p, rl, pl);
        proof {
            assert(rest@ =~= p@.skip(rl as int));
        }
        crate::strutil::trim_start_char(rest.as_str(), '/')
    } else {
        String::from_str(p)
    }
}

} // verus!
