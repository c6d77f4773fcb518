//! Verified character-level string helpers used by path handling and
//! specifier classification.

use vstd::prelude::*;
use vstd::string::StrSliceExecFns;
use vstd::string::StringExecFns;

verus! {

/// `p` is a prefix of `s`.
pub open spec fn spec_starts_with(s: Seq<char>, p: Seq<char>) -> bool {
    p.len() <= s.len() && s.subrange(0, p.len() as int) == p
}

/// `p` is a suffix of `s`.
pub open spec fn spec_ends_with(s: Seq<char>, p: Seq<char>) -> bool {
    p.len() <= s.len() && s.subrange(s.len() - p.len(), s.len() as int) == p
}

/// `p` occurs in `s` starting at position `i`.
pub open spec fn spec_match_at(s: Seq<char>, p: Seq<char>, i: int) -> bool {
    0 <= i && i + p.len() <= s.len() && s.subrange(i, i + p.len()) == p
}

/// `p` occurs somewhere in `s`.
pub open spec fn spec_contains(s: Seq<char>, p: Seq<char>) -> bool {
    exists|i: int| spec_match_at(s, p, i)
}

pub fn starts_with_str(s: &str, p: &str) -> (b: bool)
    ensures
        b == spec_starts_with(s@, p@),
{
    let sl = s.unicode_len();
    let pl = p.unicode_len();
    if pl > sl {
        return false;
    }
    let mut i: usize = 0;
    while i < pl
        invariant
            i <= pl,
            pl <= sl,
            pl == p@.len(),
            sl == s@.len(),
            forall|j: int| 0 <= j < i ==> s@[j] == p@[j],
        decreases pl - i,
    {
        if s.get_char(i) != p.get_char(i) {
            proof {
                assert(s@.subrange(0, p@.len() as int)[i as int] == s@[i as int]);
            }
            return false;
        }
        i += 1;
    }
    proof {
        assert(s@.subrange(0, p@.len() as int) =~= p@);
    }
    true
}

pub fn ends_with_str(s: &str, p: &str) -> (b: bool)
    ensures
        b == spec_ends_with(s@, p@),
{
    let sl = s.unicode_len();
    let pl = p.unicode_len();
    if pl > sl {
        return false;
    }
    let off = sl - pl;
    let mut i: usize = 0;
    while i < pl
        invariant
            i <= pl,
            pl <= sl,
            off == sl - pl,
            pl == p@.len(),
            sl == s@.len(),
            forall|j: int| 0 <= j < i ==> s@[off + j] == p@[j],
        decreases pl - i,
    {
        if s.get_char(off + i) != p.get_char(i) {
            proof {
                assert(s@.subrange(s@.len() - p@.len(), s@.len() as int)[i as int] == s@[off + i]);
            }
            return false;
        }
        i += 1;
    }
    proof {
        assert(s@.subrange(s@.len() - p@.len(), s@.len() as int) =~= p@);
    }
    true
}

pub fn str_eq(a: &str, b: &str) -> (r: bool)
    ensures
        r == (a@ == b@),
{
    let al = a.unicode_len();
    let bl = b.unicode_len();
    if al != bl {
        return false;
    }
    let r = starts_with_str(a, b);
    proof {
        if r {
            assert(a@.subrange(0, b@.len() as int) =~= a@);
        }
        if a@ == b@ {
            assert(a@.subrange(0, b@.len() as int) =~= b@);
        }
    }
    r
}

/// Whether `p` occurs in `s` starting exactly at position `i`.
pub fn match_at(s: &str, p: &str, i: usize) -> (b: bool)
    requires
        i + p@.len() <= s@.len(),
    ensures
        b == spec_match_at(s@, p@, i as int),
{
    let sl = s.unicode_len();
    let pl = p.unicode_len();
    let mut j: usize = 0;
    while j < pl
        invariant
            0 <= j <= pl,
            i + pl <= sl,
            sl == s@.len(),
            pl == p@.len(),
            forall|k: int| 0 <= k < j ==> s@[i + k] == p@[k],
        decreases pl - j,
    {
        if s.get_char(i + j) != p.get_char(j) {
            proof {
                assert(s@.subrange(i as int, i + p@.len())[j as int] == s@[i + j]);
            }
            return false;
        }
        j += 1;
    }
    proof {
        assert(s@.subrange(i as int, i + p@.len()) =~= p@);
    }
    true
}

pub fn contains_str(s: &str, p: &str) -> (b: bool)
    ensures
        b == spec_contains(s@, p@),
{
    let sl = s.unicode_len();
    let pl = p.unicode_len();
    if pl > sl {
        proof {
            assert(forall|i: int| !spec_match_at(s@, p@, i));
        }
        return false;
    }
    if pl == 0 {
        proof {
            assert(s@.subrange(0, 0) =~= p@);
            assert(spec_match_at(s@, p@, 0));
        }
        return true;
    }
    let mut i: usize = 0;
    while i <= sl - pl
        invariant
            0 <= i <= sl - pl + 1,
            1 <= pl <= sl,
            pl == p@.len(),
            sl == s@.len(),
            forall|k: int| 0 <= k < i ==> !spec_match_at(s@, p@, k),
        decreases sl - pl - i + 1,
    {
        if match_at(s, p, i) {
            return true;
        }
        i += 1;
    }
    proof {
        assert forall|k: int| !spec_match_at(s@, p@, k) by {
            if 0 <= k <= sl - pl {
                assert(!spec_match_at(s@, p@, k));
            }
        }
    }
    false
}

/// Concatenation of two string slices as a fresh `String`.
pub fn concat_str(a: &str, b: &str) -> (r: String)
    ensures
        r@ == a@ + b@,
{
    let s = String::from_str(a);
    s.concat(b)
}

/// The substring of `s` from `from` (inclusive) to `to` (exclusive), owned.
pub fn substring(s: &str, from: usize, to: usize) -> (r: String)
    requires
        from <= to <= s@.len(),
    ensures
        r@ == s@.subrange(from as int, to as int),
{
    String::from_str(s.substring_char(from, to))
}

/// Result of removing every leading occurrence of the character `c`.
pub open spec fn spec_trim_start_char(s: Seq<char>, c: char) -> Seq<char>
    decreases s.len(),
{
    if s.len() > 0 && s[0] == c {
        spec_trim_start_char(s.drop_first(), c)
    } else {
        s
    }
}

/// Result of repeatedly removing the prefix `p`, as `str::trim_start_matches`
/// does for a string pattern.
pub open spec fn spec_trim_start(s: Seq<char>, p: Seq<char>) -> Seq<char>
    decreases s.len(),
{
    if p.len() > 0 && spec_starts_with(s, p) {
        spec_trim_start(s.skip(p.len() as int), p)
    } else {
        s
    }
}

/// Result of repeatedly removing the suffix `p`, as `str::trim_end_matches`
/// does for a string pattern.
pub open spec fn spec_trim_end(s: Seq<char>, p: Seq<char>) -> Seq<char>
    decreases s.len(),
{
    if p.len() > 0 && spec_ends_with(s, p) {
        spec_trim_end(s.take(s.len() - p.len()), p)
    } else {
        s
    }
}

proof fn lemma_trim_start_char_skip(s: Seq<char>, c: char, i: int)
    requires
        0 <= i <= s.len(),
        forall|j: int| 0 <= j < i ==> s[j] == c,
    ensures
        spec_trim_start_char(s, c) == spec_trim_start_char(s.skip(i), c),
    decreases i,
{
    if i > 0 {
        assert(s.drop_first() =~= s.skip(1));
        lemma_trim_start_char_skip(s.skip(1), c, i - 1);
        assert(s.skip(1).skip(i - 1) =~= s.skip(i));
    } else {
        assert(s.skip(0) =~= s);
    }
}

pub fn trim_start_char(s: &str, c: char) -> (r: String)
    ensures
        r@ == spec_trim_start_char(s@, c),
{
    let sl = s.unicode_len();
    let mut i: usize = 0;
    while i < sl
        invariant
            0 <= i <= sl,
            sl == s@.len(),
            forall|j: int| 0 <= j < i ==> s@[j] == c,
        decreases sl - i,
    {
        if s.get_char(i) != c {
            proof {
                lemma_trim_start_char_skip(s@, c, i as int);
                assert(s@.skip(i as int)[0] == s@[i as int]);
            }
            return substring(s, i, sl);
        }
        i += 1;
    }
    proof {
        lemma_trim_start_char_skip(s@, c, sl as int);
        assert(s@.skip(sl as int) =~= Seq::<char>::empty());
    }
    String::new()
}

pub fn trim_start_str(s: &str, p: &str) -> (r: String)
    ensures
        r@ == spec_trim_start(s@, p@),
{
    let sl = s.unicode_len();
    let pl = p.unicode_len();
    if pl == 0 {
        return String::from_str(s);
    }
    let mut i: usize = 0;
    proof {
        assert(s@.skip(0) =~= s@);
    }
    loop
        invariant
            0 <= i <= sl,
            sl == s@.len(),
            1 <= pl == p@.len(),
            spec_trim_start(s@, p@) == spec_trim_start(s@.skip(i as int), p@),
        decreases sl - i,
    {
        let rest = s.substring_char(i, sl);
        if starts_with_str(rest, p) {
            proof {
                assert(s@.skip(i as int).skip(pl as int) =~= s@.skip(i + pl));
            }
            i += pl;
        } else {
            return String::from_str(rest);
        }
    }
}

pub fn trim_end_str(s: &str, p: &str) -> (r: String)
    ensures
        r@ == spec_trim_end(s@, p@),
{
    let sl = s.unicode_len();
    let pl = p.unicode_len();
    if pl == 0 {
        return String::from_str(s);
    }
    let mut e: usize = sl;
    proof {
        assert(s@.take(sl as int) =~= s@);
    }
    loop
        invariant
            0 <= e <= sl,
            sl == s@.len(),
            1 <= pl == p@.len(),
            spec_trim_end(s@, p@) == spec_trim_end(s@.take(e as int), p@),
        decreases e,
    {
        let head = s.substring_char(0, e);
        if ends_with_str(head, p) {
            proof {
                assert(s@.take(e as int).take(e - pl) =~= s@.take(e - pl));
            }
            e -= pl;
        } else {
            return String::from_str(head);
        }
    }
}

/// Linear membership test of `p` among the strings of `v`.
pub fn vec_contains_string(v: &Vec<String>, p: &str) -> (b: bool)
    ensures
        b == v.deep_view().contains(p@),
{
    let n = v.len();
    let mut i: usize = 0;
    while i < n
        invariant
            0 <= i <= n,
            n == v@.len(),
            forall|j: int| 0 <= j < i ==> v.deep_view()[j] != p@,
        decreases n - i,
    {
        if str_eq(v[i].as_str(), p) {
            proof {
                assert(v.deep_view()[i as int] == p@);
            }
            return true;
        }
        i += 1;
    }
    proof {
        assert(forall|j: int| 0 <= j < v.deep_view().len() ==> v.deep_view()[j] != p@);
    }
    false
}

/// A faithful copy of a string list.
pub fn copy_strings(v: &Vec<String>) -> (r: Vec<String>)
    ensures
        r.deep_view() == v.deep_view(),
{
    let mut out: Vec<String> = Vec::new();
    let n = v.len();
    let mut i: usize = 0;
    while i < n
        invariant
            0 <= i <= n,
            n == v@.len(),
            out.deep_view() =~= v.deep_view().take(i as int),
        decreases n - i,
    {
        proof {
            assert(out.deep_view().len() == out@.len());
            assert(v.deep_view().take(i as int).len() == i);
        }
        out.push(v[i].clone());
        proof {
            assert(out@.len() == i + 1);
            assert forall|j: int| 0 <= j < i + 1 implies out.deep_view()[j] == v.deep_view().take(
                i + 1,
            )[j] by {
                if j < i {
                    assert(out.deep_view()[j] == v.deep_view().take(i as int)[j]);
                } else {
                    assert(out.deep_view()[j] == out@[j]@);
                    assert(v.deep_view()[j] == v@[j]@);
                }
            }
            assert(out.deep_view() =~= v.deep_view().take(i + 1));
        }
        i += 1;
    }
    proof {
        assert(v.deep_view().take(n as int) =~= v.deep_view());
    }
    out
}

/// Where a character occurs at all, it occurs a last time.
pub proof fn lemma_exists_last(p: Seq<char>, c: char)
    requires
        exists|i: int| 0 <= i < p.len() && p[i] == c,
    ensures
        exists|i: int|
            0 <= i < p.len() && p[i] == c && forall|j: int| i < j < p.len() ==> p[j] != c,
    decreases p.len(),
{
    let w = choose|i: int| 0 <= i < p.len() && p[i] == c;
    if p[p.len() - 1] == c {
        let last = p.len() - 1;
        assert(0 <= last < p.len() && p[last] == c && forall|j: int|
            last < j < p.len() ==> p[j] != c);
    } else {
        let head = p.take(p.len() - 1);
        assert(0 <= w < head.len() && head[w] == c);
        lemma_exists_last(head, c);
        let i = choose|i: int|
            0 <= i < head.len() && head[i] == c && forall|j: int|
                i < j < head.len() ==> head[j] != c;
        assert(head[i] == p[i]);
        assert forall|j: int| i < j < p.len() - 1 implies p[j] != c by {
            assert(head[j] == p[j]);
        }
        assert(0 <= i < p.len() && p[i] == c && forall|j: int| i < j < p.len() ==> p[j] != c);
    }
}

/// Index of the last occurrence of `c` in `s`, if any.
pub fn last_index_of(s: &str, c: char) -> (r: Option<usize>)
    ensures
        match r {
            Some(i) => i < s@.len() && s@[i as int] == c && forall|j: int|
                i < j < s@.len() ==> s@[j] != c,
            None => forall|j: int| 0 <= j < s@.len() ==> s@[j] != c,
        },
{
    let sl = s.unicode_len();
    let mut i: usize = sl;
    while i > 0
        invariant
            i <= sl,
            sl == s@.len(),
            forall|j: int| i <= j < s@.len() ==> s@[j] != c,
        decreases i,
    {
        i -= 1;
        if s.get_char(i) == c {
            return Some(i);
        }
    }
    None
}

} // verus!
