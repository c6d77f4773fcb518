//! The file-extension tables that parsing, resolution and entry collection
//! share: the eight JavaScript/TypeScript extensions in resolution priority
//! order, and the index file name derived from each.

use vstd::prelude::*;
use vstd::string::StringExecFns;
use crate::strutil::concat_str;

verus! {

/// How many extensions are recognized.
pub const EXTENSION_COUNT: usize = 8;

/// The `i`-th extension in resolution priority order.
pub open spec fn spec_ext(i: int) -> Seq<char> {
    if i == 0 {
        "ts"@
    } else if i == 1 {
        "tsx"@
    } else if i == 2 {
        "mts"@
    } else if i == 3 {
        "cts"@
    } else if i == 4 {
        "js"@
    } else if i == 5 {
        "jsx"@
    } else if i == 6 {
        "mjs"@
    } else {
        "cjs"@
    }
}

/// The `i`-th index file name, `"index."` followed by the `i`-th extension.
pub open spec fn spec_index_file(i: int) -> Seq<char> {
    "index."@ + spec_ext(i)
}

/// A path has the `i`-th extension appended after a dot.
pub open spec fn spec_with_ext(p: Seq<char>, i: int) -> Seq<char> {
    p + "."@ + spec_ext(i)
}

pub fn ext_at(i: usize) -> (r: String)
    requires
        i < EXTENSION_COUNT,
    ensures
        r@ == spec_ext(i as int),
{
    let s = if i == 0 {
        "ts"
    } else if i == 1 {
        "tsx"
    } else if i == 2 {
        "mts"
    } else if i == 3 {
        "cts"
    } else if i == 4 {
        "js"
    } else if i == 5 {
        "jsx"
    } else if i == 6 {
        "mjs"
    } else {
        "cjs"
    };
    String::from_str(s)
}

pub fn index_file_at(i: usize) -> (r: String)
    requires
        i < EXTENSION_COUNT,
    ensures
        r@ == spec_index_file(i as int),
{
    let e = ext_at(i);
    concat_str("index.", e.as_str())
}

/// The extensions a file must carry to be analyzed, equal to the
/// resolution priority list.
pub fn js_ts_extensions() -> (r: Vec<String>)
    ensures
        r.deep_view().len() == EXTENSION_COUNT,
        forall|i: int| 0 <= i < EXTENSION_COUNT ==> r.deep_view()[i] == spec_ext(i),
{
    let mut v: Vec<String> = Vec::new();
    let mut i: usize = 0;
    while i < EXTENSION_COUNT
        invariant
            0 <= i <= EXTENSION_COUNT,
            v.deep_view().len() == i,
            forall|j: int| 0 <= j < i ==> v.deep_view()[j] == spec_ext(j),
        decreases EXTENSION_COUNT - i,
    {
        v.push(ext_at(i));
        i += 1;
    }
    v
}

/// The extensions probed, in order, when a request lacks one.
pub fn resolve_extensions() -> (r: Vec<String>)
    ensures
        r.deep_view().len() == EXTENSION_COUNT,
        forall|i: int| 0 <= i < EXTENSION_COUNT ==> r.deep_view()[i] == spec_ext(i),
{
    js_ts_extensions()
}

/// The index file names probed, in order, when a request names a directory.
pub fn index_files() -> (r: Vec<String>)
    ensures
        r.deep_view().len() == EXTENSION_COUNT,
        forall|i: int| 0 <= i < EXTENSION_COUNT ==> r.deep_view()[i] == spec_index_file(i),
{
    let mut v: Vec<String> = Vec::new();
    let mut i: usize = 0;
    while i < EXTENSION_COUNT
        invariant
            0 <= i <= EXTENSION_COUNT,
            v.deep_view().len() == i,
            forall|j: int| 0 <= j < i ==> v.deep_view()[j] == spec_index_file(j),
        decreases EXTENSION_COUNT - i,
    {
        v.push(index_file_at(i));
        i += 1;
    }
    v
}

} // verus!
