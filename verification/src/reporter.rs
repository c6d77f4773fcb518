//! Path relativization for display, and the warning tree printed for the
//! bloat checker.

use vstd::prelude::*;
use vstd::string::StrSliceExecFns;
use vstd::string::StringExecFns;
use crate::bloat::{Config, Warning, WarningModel};
use crate::strutil::{concat_str, str_eq, substring};
use crate::types::lemma_vec_deep_push;

verus! {

/// Index of the first `/` in `s`, or its length.
pub open spec fn spec_first_slash(s: Seq<char>) -> int
    decreases s.len(),
{
    if s.len() == 0 {
        0
    } else if s[0] == '/' {
        0
    } else {
        1 + spec_first_slash(s.drop_first())
    }
}

pub proof fn lemma_first_slash_bounds(s: Seq<char>)
    ensures
        0 <= spec_first_slash(s) <= s.len(),
        s.len() > 0 && s[0] != '/' ==> spec_first_slash(s) >= 1,
        forall|j: int| 0 <= j < spec_first_slash(s) ==> s[j] != '/',
        spec_first_slash(s) < s.len() ==> s[spec_first_slash(s)] == '/',
    decreases s.len(),
{
    if s.len() > 0 && s[0] != '/' {
        lemma_first_slash_bounds(s.drop_first());
        assert forall|j: int| 0 <= j < spec_first_slash(s) implies s[j] != '/' by {
            if j > 0 {
                assert(s.drop_first()[j - 1] != '/');
            }
        }
    }
}

/// The non-empty `/`-separated pieces of a path, in order.
pub open spec fn spec_split_path(s: Seq<char>) -> Seq<Seq<char>>
    decreases s.len(),
    via spec_split_path_decreases
{
    if s.len() == 0 {
        Seq::empty()
    } else if s[0] == '/' {
        spec_split_path(s.drop_first())
    } else {
        let e = spec_first_slash(s);
        seq![s.take(e)] + spec_split_path(s.skip(e))
    }
}

#[via_fn]
proof fn spec_split_path_decreases(s: Seq<char>) {
    lemma_first_slash_bounds(s);
}

/// The pieces with `.` elements dropped.
pub open spec fn spec_drop_dots(raw: Seq<Seq<char>>) -> Seq<Seq<char>>
    decreases raw.len(),
{
    if raw.len() == 0 {
        Seq::empty()
    } else if raw[0] == "."@ {
        spec_drop_dots(raw.drop_first())
    } else {
        seq![raw[0]] + spec_drop_dots(raw.drop_first())
    }
}

/// The components with root and `.` markers dropped, `..` kept.
pub open spec fn spec_keep_normal(segs: Seq<Seq<char>>) -> Seq<Seq<char>>
    decreases segs.len(),
{
    if segs.len() == 0 {
        Seq::empty()
    } else if segs[0] == "/"@ || segs[0] == "."@ {
        spec_keep_normal(segs.drop_first())
    } else {
        seq![segs[0]] + spec_keep_normal(segs.drop_first())
    }
}

/// The components of a path the way the comparison walks them: a root
/// marker for an absolute path, a kept leading `.` for a relative one,
/// and the remaining pieces with interior `.` elements dropped.
pub open spec fn spec_components(s: Seq<char>) -> Seq<Seq<char>> {
    let raw = spec_split_path(s);
    let kept = spec_drop_dots(raw);
    if s.len() > 0 && s[0] == '/' {
        seq!["/"@] + kept
    } else if raw.len() > 0 && raw[0] == "."@ {
        seq!["."@] + kept
    } else {
        kept
    }
}

/// How many leading components two paths share.
pub open spec fn spec_common_len(a: Seq<Seq<char>>, b: Seq<Seq<char>>) -> int
    decreases a.len(),
{
    if a.len() == 0 || b.len() == 0 || a[0] != b[0] {
        0
    } else {
        1 + spec_common_len(a.drop_first(), b.drop_first())
    }
}

/// Components joined with single separators, folded left like the builder.
pub open spec fn spec_join_acc(segs: Seq<Seq<char>>, i: int, acc: Seq<char>) -> Seq<char>
    decreases segs.len() - i,
{
    if i < 0 || i >= segs.len() {
        acc
    } else {
        spec_join_acc(segs, i + 1, acc + "/"@ + segs[i])
    }
}

pub open spec fn spec_join_segs(segs: Seq<Seq<char>>) -> Seq<char> {
    if segs.len() == 0 {
        Seq::empty()
    } else {
        spec_join_acc(segs, 1, segs[0])
    }
}

/// The relative path segments from `base` to `target` once `k` leading
/// components are shared: one `..` per remaining base component, then the
/// remaining target components, root and `.` markers dropped.
pub open spec fn spec_relative_segs(tc: Seq<Seq<char>>, bc: Seq<Seq<char>>, k: int) -> Seq<
    Seq<char>,
> {
    Seq::new((bc.len() - k) as nat, |i: int| ".."@) + spec_keep_normal(tc.skip(k))
}

/// The relative path from `base` to `target`, as the reporter computes
/// it: `.` when the target's components are exhausted, nothing when the
/// two share no leading component, else `..` steps followed by the rest
/// of the target.
pub open spec fn spec_make_relative(t: Seq<char>, b: Seq<char>) -> Option<Seq<char>> {
    let tc = spec_components(t);
    let bc = spec_components(b);
    let k = spec_common_len(tc, bc);
    if k == tc.len() {
        Some("."@)
    } else if k == 0 {
        None
    } else {
        let segs = spec_relative_segs(tc, bc, k);
        if segs.len() == 0 {
            Some("."@)
        } else {
            Some(spec_join_segs(segs))
        }
    }
}

proof fn lemma_first_slash_agrees(s: Seq<char>, e: int)
    requires
        0 <= e <= s.len(),
        forall|j: int| 0 <= j < e ==> s[j] != '/',
        e < s.len() ==> s[e] == '/',
    ensures
        spec_first_slash(s) == e,
    decreases s.len(),
{
    if s.len() > 0 && s[0] != '/' {
        assert forall|j: int| 0 <= j < e - 1 implies s.drop_first()[j] != '/' by {
            assert(s[j + 1] != '/');
        }
        lemma_first_slash_agrees(s.drop_first(), e - 1);
    }
}

/// The non-empty `/`-separated pieces of a path.
fn split_path(s: &str) -> (r: Vec<String>)
    ensures
        r.deep_view() == spec_split_path(s@),
    decreases s@.len(),
{
    let sl = s.unicode_len();
    if sl == 0 {
        let r: Vec<String> = Vec::new();
        proof {
            assert(r.deep_view() =~= spec_split_path(s@));
        }
        return r;
    }
    if s.get_char(0) == '/' {
        let rest = substring(s, 1, sl);
        proof {
            assert(rest@ =~= s@.drop_first());
        }
        return split_path(rest.as_str());
    }
    let mut e: usize = 0;
    while e < sl && s.get_char(e) != '/'
        invariant
            0 <= e <= sl,
            sl == s@.len(),
            forall|j: int| 0 <= j < e ==> s@[j] != '/',
        decreases sl - e,
    {
        e += 1;
    }
    proof {
        lemma_first_slash_agrees(s@, e as int);
        lemma_first_slash_bounds(s@);
    }
    let seg = substring(s, 0, e);
    let rest = substring(s, e, sl);
    proof {
        assert(seg@ =~= s@.take(e as int));
        assert(rest@ =~= s@.skip(e as int));
    }
    let mut tail = split_path(rest.as_str());
    let mut out: Vec<String> = Vec::new();
    out.push(seg);
    let ghost ghead = out.deep_view();
    let ghost gtail = tail.deep_view();
    let ghost gtailv = tail@;
    out.append(&mut tail);
    proof {
        assert(ghead =~= seq![s@.take(e as int)]);
        assert forall|k: int| 0 <= k < out.deep_view().len() implies out.deep_view()[k] == (ghead
            + gtail)[k] by {
            assert(out.deep_view()[k] == out@[k]@);
            if k >= 1 {
                assert(out@[k] == gtailv[k - 1]);
                assert(gtail[k - 1] == gtailv[k - 1]@);
            } else {
                assert(out.deep_view()[0] == ghead[0]);
            }
        }
        assert(out.deep_view() =~= ghead + gtail);
    }
    out
}

/// The components of a path as the comparison walks them.
fn path_components(s: &str) -> (r: Vec<String>)
    ensures
        r.deep_view() == spec_components(s@),
{
    let raw = split_path(s);
    let ghost graw = raw.deep_view();
    let mut out: Vec<String> = Vec::new();
    let sl = s.unicode_len();
    if sl > 0 && s.get_char(0) == '/' {
        out.push(String::from_str("/"));
    } else if raw.len() > 0 && str_eq(raw[0].as_str(), ".") {
        proof {
            assert(graw[0] == "."@);
        }
        out.push(String::from_str("."));
    }
    let ghost marker = out.deep_view();
    let n = raw.len();
    let mut i: usize = 0;
    proof {
        assert(graw.skip(0) =~= graw);
        assert(marker + spec_drop_dots(graw) =~= out.deep_view() + spec_drop_dots(graw.skip(0)));
    }
    #[verifier::loop_isolation(false)]
    while i < n
        invariant
            0 <= i <= n,
            n == graw.len(),
            raw.deep_view() == graw,
            marker + spec_drop_dots(graw) =~= out.deep_view() + spec_drop_dots(
                graw.skip(i as int),
            ),
        decreases n - i,
    {
        proof {
            assert(graw[i as int] == raw@[i as int]@);
            assert(graw.skip(i as int)[0] == graw[i as int]);
            assert(graw.skip(i as int).drop_first() =~= graw.skip(i + 1));
        }
        if !str_eq(raw[i].as_str(), ".") {
            let ghost opre = *&out;
            out.push(raw[i].clone());
            proof {
                crate::types::lemma_vec_deep_push(opre, out, out@[out@.len() - 1]);
                assert((opre.deep_view() + (seq![graw[i as int]] + spec_drop_dots(
                    graw.skip(i + 1),
                ))) =~= out.deep_view() + spec_drop_dots(graw.skip(i + 1)));
            }
        }
        i += 1;
    }
    proof {
        assert(graw.skip(n as int) =~= Seq::<Seq<char>>::empty());
        assert(out.deep_view() + Seq::<Seq<char>>::empty() =~= out.deep_view());
        assert(spec_components(s@) =~= marker + spec_drop_dots(graw));
    }
    out
}

/// Creates a relative path from `base` to `target`, comparing their
/// components: shared leading components are dropped, each extra base
/// component becomes `..`, and the rest of the target follows. `None`
/// when the two share no leading component; `.` when the target is
/// exhausted or nothing remains.
pub fn make_relative(target: &str, base: &str) -> (r: Option<String>)
    ensures
        match r {
            Some(p) => spec_make_relative(target@, base@) == Some(p@),
            None => spec_make_relative(target@, base@) is None,
        },
{
    let tc = path_components(target);
    let bc = path_components(base);
    let ghost gtc = tc.deep_view();
    let ghost gbc = bc.deep_view();
    let tn = tc.len();
    let bn = bc.len();
    let mut k: usize = 0;
    proof {
        assert(gtc.skip(0) =~= gtc);
        assert(gbc.skip(0) =~= gbc);
    }
    while k < tn && k < bn && str_eq(tc[k].as_str(), bc[k].as_str())
        invariant
            0 <= k <= tn,
            0 <= k <= bn,
            tn == gtc.len(),
            bn == gbc.len(),
            tc.deep_view() == gtc,
            bc.deep_view() == gbc,
            spec_common_len(gtc, gbc) == k + spec_common_len(
                gtc.skip(k as int),
                gbc.skip(k as int),
            ),
            forall|j: int| 0 <= j < k ==> gtc[j] == gbc[j],
        decreases tn - k,
    {
        proof {
            assert(gtc[k as int] == tc@[k as int]@);
            assert(gbc[k as int] == bc@[k as int]@);
            assert(gtc.skip(k as int)[0] == gtc[k as int]);
            assert(gbc.skip(k as int)[0] == gbc[k as int]);
            assert(gtc.skip(k as int).drop_first() =~= gtc.skip(k + 1));
            assert(gbc.skip(k as int).drop_first() =~= gbc.skip(k + 1));
        }
        k += 1;
    }
    proof {
        if k < tn && k < bn {
            assert(gtc[k as int] == tc@[k as int]@);
            assert(gbc[k as int] == bc@[k as int]@);
            assert(gtc.skip(k as int)[0] != gbc.skip(k as int)[0]);
        }
        assert(spec_common_len(gtc.skip(k as int), gbc.skip(k as int)) == 0);
        assert(spec_common_len(gtc, gbc) == k as int);
    }
    if k == tn {
        return Some(String::from_str("."));
    }
    if k == 0 {
        return None;
    }
    let mut segs: Vec<String> = Vec::new();
    let ups = bn - k;
    let mut u: usize = 0;
    proof {
        assert(segs.deep_view() =~= Seq::new(0nat, |i: int| ".."@));
    }
    while u < ups
        invariant
            0 <= u <= ups,
            segs.deep_view() =~= Seq::new(u as nat, |i: int| ".."@),
        decreases ups - u,
    {
        let ghost spre = *&segs;
        segs.push(String::from_str(".."));
        proof {
            crate::types::lemma_vec_deep_push(spre, segs, segs@[segs@.len() - 1]);
            assert(segs.deep_view() =~= Seq::new((u + 1) as nat, |i: int| ".."@));
        }
        u += 1;
    }
    let ghost gups = Seq::new(ups as nat, |i: int| ".."@);
    let mut i: usize = k;
    proof {
        assert(gups + spec_keep_normal(gtc.skip(k as int)) =~= segs.deep_view()
            + spec_keep_normal(gtc.skip(k as int)));
    }
    #[verifier::loop_isolation(false)]
    while i < tn
        invariant
            k <= i <= tn,
            tn == gtc.len(),
            tc.deep_view() == gtc,
            gups + spec_keep_normal(gtc.skip(k as int)) =~= segs.deep_view() + spec_keep_normal(
                gtc.skip(i as int),
            ),
        decreases tn - i,
    {
        proof {
            assert(gtc[i as int] == tc@[i as int]@);
            assert(gtc.skip(i as int)[0] == gtc[i as int]);
            assert(gtc.skip(i as int).drop_first() =~= gtc.skip(i + 1));
        }
        if !str_eq(tc[i].as_str(), "/") && !str_eq(tc[i].as_str(), ".") {
            let ghost spre = *&segs;
            segs.push(tc[i].clone());
            proof {
                crate::types::lemma_vec_deep_push(spre, segs, segs@[segs@.len() - 1]);
                assert((spre.deep_view() + (seq![gtc[i as int]] + spec_keep_normal(
                    gtc.skip(i + 1),
                ))) =~= segs.deep_view() + spec_keep_normal(gtc.skip(i + 1)));
            }
        }
        i += 1;
    }
    proof {
        assert(gtc.skip(tn as int) =~= Seq::<Seq<char>>::empty());
        assert(segs.deep_view() + Seq::<Seq<char>>::empty() =~= segs.deep_view());
        assert(segs.deep_view() =~= spec_relative_segs(gtc, gbc, k as int));
    }
    if segs.len() == 0 {
        return Some(String::from_str("."));
    }
    let mut acc = segs[0].clone();
    let ghost gsegs = segs.deep_view();
    let n = segs.len();
    let mut j: usize = 1;
    proof {
        assert(acc@ == gsegs[0]);
        assert(spec_join_segs(gsegs) == spec_join_acc(gsegs, 1, acc@));
    }
    #[verifier::loop_isolation(false)]
    while j < n
        invariant
            1 <= j <= n,
            n == gsegs.len(),
            segs.deep_view() == gsegs,
            spec_join_segs(gsegs) == spec_join_acc(gsegs, j as int, acc@),
        decreases n - j,
    {
        proof {
            assert(gsegs[j as int] == segs@[j as int]@);
        }
        let mut next = concat_str(acc.as_str(), "/");
        next.append(segs[j].as_str());
        proof {
            assert(next@ =~= acc@ + "/"@ + gsegs[j as int]);
        }
        acc = next;
        j += 1;
    }
    Some(acc)
}

/// The decimal digit characters.
pub open spec fn spec_digit(d: int) -> char {
    if d == 0 {
        '0'
    } else if d == 1 {
        '1'
    } else if d == 2 {
        '2'
    } else if d == 3 {
        '3'
    } else if d == 4 {
        '4'
    } else if d == 5 {
        '5'
    } else if d == 6 {
        '6'
    } else if d == 7 {
        '7'
    } else if d == 8 {
        '8'
    } else {
        '9'
    }
}

/// The decimal rendering of a number.
pub open spec fn spec_decimal(n: nat) -> Seq<char>
    decreases n,
{
    if n < 10 {
        seq![spec_digit(n as int)]
    } else {
        spec_decimal(n / 10) + seq![spec_digit((n % 10) as int)]
    }
}

fn digit_str(d: usize) -> (r: String)
    requires
        d < 10,
    ensures
        r@ == seq![spec_digit(d as int)],
{
    let s = if d == 0 {
        "0"
    } else if d == 1 {
        "1"
    } else if d == 2 {
        "2"
    } else if d == 3 {
        "3"
    } else if d == 4 {
        "4"
    } else if d == 5 {
        "5"
    } else if d == 6 {
        "6"
    } else if d == 7 {
        "7"
    } else if d == 8 {
        "8"
    } else {
        "9"
    };
    proof {
        reveal_strlit("0");
        reveal_strlit("1");
        reveal_strlit("2");
        reveal_strlit("3");
        reveal_strlit("4");
        reveal_strlit("5");
        reveal_strlit("6");
        reveal_strlit("7");
        reveal_strlit("8");
        reveal_strlit("9");
        assert(s@ =~= seq![spec_digit(d as int)]);
    }
    String::from_str(s)
}

/// The decimal rendering of a count.
pub fn usize_to_string(n: usize) -> (r: String)
    ensures
        r@ == spec_decimal(n as nat),
    decreases n,
{
    if n < 10 {
        digit_str(n)
    } else {
        let mut head = usize_to_string(n / 10);
        let tail = digit_str(n % 10);
        head.append(tail.as_str());
        head
    }
}

/// A faithful copy of a warning.
fn copy_warning(w: &Warning) -> (r: Warning)
    ensures
        r@ == w@,
{
    Warning {
        import_statement: w.import_statement.clone(),
        from_file: w.from_file.clone(),
        reachable_unique_modules: w.reachable_unique_modules,
        resolved_path: match &w.resolved_path {
            Some(p) => Some(p.clone()),
            None => None,
        },
    }
}

/// Insertion into a descending run: a warning goes after every warning
/// with at least its count, keeping earlier equals first.
pub open spec fn spec_insert_desc(w: WarningModel, sorted: Seq<WarningModel>) -> Seq<WarningModel>
    decreases sorted.len(),
{
    if sorted.len() == 0 {
        seq![w]
    } else if sorted[0].reachable_unique_modules >= w.reachable_unique_modules {
        seq![sorted[0]] + spec_insert_desc(w, sorted.drop_first())
    } else {
        seq![w] + sorted
    }
}

/// The warnings in descending count order, by repeated insertion.
pub open spec fn spec_sort_desc(ws: Seq<WarningModel>, i: int, acc: Seq<WarningModel>) -> Seq<
    WarningModel,
>
    decreases ws.len() - i,
{
    if i < 0 || i >= ws.len() {
        acc
    } else {
        spec_sort_desc(ws, i + 1, spec_insert_desc(ws[i], acc))
    }
}

fn insert_desc(w: Warning, sorted: Vec<Warning>) -> (r: Vec<Warning>)
    ensures
        r.deep_view() == spec_insert_desc(w@, sorted.deep_view()),
    decreases sorted@.len(),
{
    let ghost gs = sorted.deep_view();
    let ghost gw = w@;
    let mut sorted = sorted;
    if sorted.len() == 0 {
        let mut out: Vec<Warning> = Vec::new();
        out.push(w);
        proof {
            assert(out.deep_view() =~= seq![gw]);
        }
        return out;
    }
    let head = sorted.remove(0);
    proof {
        assert(sorted.deep_view() =~= gs.drop_first());
        assert(head@ == gs[0]);
    }
    if head.reachable_unique_modules >= w.reachable_unique_modules {
        let mut rest = insert_desc(w, sorted);
        let ghost grest = rest.deep_view();
        let ghost grestv = rest@;
        let mut out: Vec<Warning> = Vec::new();
        out.push(head);
        out.append(&mut rest);
        proof {
            assert forall|k: int| 0 <= k < out.deep_view().len() implies out.deep_view()[k] == (
            seq![gs[0]] + grest)[k] by {
                assert(out.deep_view()[k] == out@[k]@);
                if k >= 1 {
                    assert(out@[k] == grestv[k - 1]);
                    assert(grest[k - 1] == grestv[k - 1]@);
                }
            }
            assert(out.deep_view() =~= seq![gs[0]] + grest);
        }
        out
    } else {
        sorted.insert(0, head);
        proof {
            assert(sorted.deep_view().len() == gs.len());
            assert forall|k: int| 0 <= k < gs.len() implies sorted.deep_view()[k] == gs[k] by {
                assert(sorted.deep_view()[k] == sorted@[k]@);
            }
            assert(sorted.deep_view() =~= gs);
        }
        let ghost gsv = sorted@;
        let mut out: Vec<Warning> = Vec::new();
        out.push(w);
        out.append(&mut sorted);
        proof {
            assert forall|k: int| 0 <= k < out.deep_view().len() implies out.deep_view()[k] == (
            seq![gw] + gs)[k] by {
                assert(out.deep_view()[k] == out@[k]@);
                if k >= 1 {
                    assert(out@[k] == gsv[k - 1]);
                    assert(gs[k - 1] == gsv[k - 1]@);
                }
            }
            assert(out.deep_view() =~= seq![gw] + gs);
        }
        out
    }
}

/// The warnings in descending count order; ties keep their first-seen
/// relative order.
pub fn sort_warnings_desc(warnings: &Vec<Warning>) -> (r: Vec<Warning>)
    ensures
        r.deep_view() == spec_sort_desc(warnings.deep_view(), 0, Seq::empty()),
{
    let ghost gws = warnings.deep_view();
    let mut sorted: Vec<Warning> = Vec::new();
    let n = warnings.len();
    let mut i: usize = 0;
    proof {
        assert(sorted.deep_view() =~= Seq::<WarningModel>::empty());
    }
    #[verifier::loop_isolation(false)]
    while i < n
        invariant
            0 <= i <= n,
            n == gws.len(),
            warnings.deep_view() == gws,
            spec_sort_desc(gws, 0, Seq::empty()) == spec_sort_desc(
                gws,
                i as int,
                sorted.deep_view(),
            ),
        decreases n - i,
    {
        let w = copy_warning(&warnings[i]);
        proof {
            assert(gws[i as int] == warnings@[i as int]@);
        }
        sorted = insert_desc(w, sorted);
        i += 1;
    }
    sorted
}

/// A warning that stands for an entry's whole graph rather than one
/// import, recognized as the original reporter does.
pub open spec fn spec_is_entry_warning(w: WarningModel) -> bool {
    crate::strutil::spec_contains(w.import_statement, "Entry file"@)
}

fn is_entry_warning(w: &Warning) -> (b: bool)
    ensures
        b == spec_is_entry_warning(w@),
{
    crate::strutil::contains_str(w.import_statement.as_str(), "Entry file")
}

/// A warning joins the group of its source file, in first-appearance
/// order of files, appended behind the group's earlier warnings.
pub open spec fn spec_add_to_group(
    gv: Seq<(Seq<char>, Seq<WarningModel>)>,
    w: WarningModel,
) -> Seq<(Seq<char>, Seq<WarningModel>)>
    decreases gv.len(),
{
    if gv.len() == 0 {
        seq![(w.from_file, seq![w])]
    } else if gv[0].0 == w.from_file {
        seq![(gv[0].0, gv[0].1.push(w))] + gv.drop_first()
    } else {
        seq![gv[0]] + spec_add_to_group(gv.drop_first(), w)
    }
}

/// All warnings from position `i` on grouped by source file.
pub open spec fn spec_group_by_file(
    ws: Seq<WarningModel>,
    i: int,
    gv: Seq<(Seq<char>, Seq<WarningModel>)>,
) -> Seq<(Seq<char>, Seq<WarningModel>)>
    decreases ws.len() - i,
{
    if i < 0 || i >= ws.len() {
        gv
    } else {
        spec_group_by_file(ws, i + 1, spec_add_to_group(gv, ws[i]))
    }
}

/// The greatest count among a group's warnings from position `i` on.
pub open spec fn spec_group_max(ws: Seq<WarningModel>, i: int) -> nat
    decreases ws.len() - i,
{
    if i < 0 || i >= ws.len() {
        0
    } else {
        let rest = spec_group_max(ws, i + 1);
        if ws[i].reachable_unique_modules > rest {
            ws[i].reachable_unique_modules
        } else {
            rest
        }
    }
}

/// Insertion into a run of groups in descending worst-count order: a
/// group goes after every group with at least its worst count.
pub open spec fn spec_insert_group(
    g: (Seq<char>, Seq<WarningModel>),
    sorted: Seq<(Seq<char>, Seq<WarningModel>)>,
) -> Seq<(Seq<char>, Seq<WarningModel>)>
    decreases sorted.len(),
{
    if sorted.len() == 0 {
        seq![g]
    } else if spec_group_max(sorted[0].1, 0) >= spec_group_max(g.1, 0) {
        seq![sorted[0]] + spec_insert_group(g, sorted.drop_first())
    } else {
        seq![g] + sorted
    }
}

/// The groups in descending worst-count order, by repeated insertion;
/// ties keep their first-appearance relative order.
pub open spec fn spec_sort_groups(
    gv: Seq<(Seq<char>, Seq<WarningModel>)>,
    acc: Seq<(Seq<char>, Seq<WarningModel>)>,
) -> Seq<(Seq<char>, Seq<WarningModel>)>
    decreases gv.len(),
{
    if gv.len() == 0 {
        acc
    } else {
        spec_sort_groups(gv.drop_first(), spec_insert_group(gv[0], acc))
    }
}

/// The first whole-graph warning of a group, if any: its count goes on
/// the group's header line.
pub open spec fn spec_find_entry(ws: Seq<WarningModel>, i: int) -> Option<WarningModel>
    decreases ws.len() - i,
{
    if i < 0 || i >= ws.len() {
        None
    } else if spec_is_entry_warning(ws[i]) {
        Some(ws[i])
    } else {
        spec_find_entry(ws, i + 1)
    }
}

/// A group's per-import warnings: everything but the whole-graph markers.
pub open spec fn spec_non_entry(ws: Seq<WarningModel>, i: int) -> Seq<WarningModel>
    decreases ws.len() - i,
{
    if i < 0 || i >= ws.len() {
        Seq::empty()
    } else if spec_is_entry_warning(ws[i]) {
        spec_non_entry(ws, i + 1)
    } else {
        seq![ws[i]] + spec_non_entry(ws, i + 1)
    }
}

/// The groups of a warning list as mathematical values.
pub open spec fn groups_view(gs: Seq<(String, Vec<Warning>)>) -> Seq<
    (Seq<char>, Seq<WarningModel>),
> {
    gs.map_values(|g: (String, Vec<Warning>)| (g.0@, g.1.deep_view()))
}

fn add_to_group(groups: Vec<(String, Vec<Warning>)>, w: Warning) -> (r: Vec<
    (String, Vec<Warning>),
>)
    ensures
        groups_view(r@) == spec_add_to_group(groups_view(groups@), w@),
    decreases groups@.len(),
{
    let ghost gv = groups_view(groups@);
    let ghost wv = w@;
    let mut groups = groups;
    if groups.len() == 0 {
        let from = w.from_file.clone();
        let mut ws: Vec<Warning> = Vec::new();
        ws.push(w);
        let mut out: Vec<(String, Vec<Warning>)> = Vec::new();
        out.push((from, ws));
        proof {
            assert(groups_view(out@).len() == 1);
            assert(groups_view(out@)[0] == (out@[0].0@, out@[0].1.deep_view()));
            assert(out@[0].1.deep_view() =~= seq![wv]);
            assert(groups_view(out@) =~= seq![(wv.from_file, seq![wv])]);
        }
        return out;
    }
    let head = groups.remove(0);
    let ghost gtail = groups_view(groups@);
    proof {
        assert forall|k: int| 0 <= k < gtail.len() implies gtail[k] == gv.drop_first()[k] by {
            assert(gtail[k] == (groups@[k].0@, groups@[k].1.deep_view()));
        }
        assert(gtail =~= gv.drop_first());
        assert((head.0@, head.1.deep_view()) == gv[0]);
    }
    if str_eq(head.0.as_str(), w.from_file.as_str()) {
        let mut head = head;
        let ghost hpre = *&head.1;
        head.1.push(w);
        proof {
            lemma_vec_deep_push(hpre, head.1, head.1@[head.1@.len() - 1]);
        }
        let mut out: Vec<(String, Vec<Warning>)> = Vec::new();
        out.push(head);
        let ghost gtailv = groups@;
        out.append(&mut groups);
        proof {
            assert forall|k: int| 0 <= k < groups_view(out@).len() implies groups_view(out@)[k]
                == (seq![(gv[0].0, gv[0].1.push(wv))] + gtail)[k] by {
                assert(groups_view(out@)[k] == (out@[k].0@, out@[k].1.deep_view()));
                if k >= 1 {
                    assert(out@[k] == gtailv[k - 1]);
                    assert(gtail[k - 1] == (gtailv[k - 1].0@, gtailv[k - 1].1.deep_view()));
                }
            }
            assert(groups_view(out@) =~= seq![(gv[0].0, gv[0].1.push(wv))] + gtail);
        }
        return out;
    }
    let mut rest = add_to_group(groups, w);
    let ghost grest = groups_view(rest@);
    let ghost grestv = rest@;
    let mut out: Vec<(String, Vec<Warning>)> = Vec::new();
    out.push(head);
    out.append(&mut rest);
    proof {
        assert forall|k: int| 0 <= k < groups_view(out@).len() implies groups_view(out@)[k] == (
        seq![gv[0]] + grest)[k] by {
            assert(groups_view(out@)[k] == (out@[k].0@, out@[k].1.deep_view()));
            if k >= 1 {
                assert(out@[k] == grestv[k - 1]);
                assert(grest[k - 1] == (grestv[k - 1].0@, grestv[k - 1].1.deep_view()));
            }
        }
        assert(groups_view(out@) =~= seq![gv[0]] + grest);
    }
    out
}

/// The warnings grouped by source file, files in first-appearance order,
/// each group's warnings in warning order.
pub fn group_by_file(warnings: &Vec<Warning>) -> (r: Vec<(String, Vec<Warning>)>)
    ensures
        groups_view(r@) == spec_group_by_file(warnings.deep_view(), 0, Seq::empty()),
{
    let ghost gws = warnings.deep_view();
    let mut groups: Vec<(String, Vec<Warning>)> = Vec::new();
    let n = warnings.len();
    let mut i: usize = 0;
    proof {
        assert(groups_view(groups@) =~= Seq::<(Seq<char>, Seq<WarningModel>)>::empty());
    }
    #[verifier::loop_isolation(false)]
    while i < n
        invariant
            0 <= i <= n,
            n == gws.len(),
            warnings.deep_view() == gws,
            spec_group_by_file(gws, 0, Seq::empty()) == spec_group_by_file(
                gws,
                i as int,
                groups_view(groups@),
            ),
        decreases n - i,
    {
        let w = copy_warning(&warnings[i]);
        proof {
            assert(gws[i as int] == warnings@[i as int]@);
        }
        groups = add_to_group(groups, w);
        i += 1;
    }
    groups
}

/// The greatest count among a group's warnings.
fn group_max(ws: &Vec<Warning>) -> (m: usize)
    ensures
        m as nat == spec_group_max(ws.deep_view(), 0),
{
    let ghost gws = ws.deep_view();
    let n = ws.len();
    let mut acc: usize = 0;
    let mut i: usize = n;
    proof {
        assert(spec_group_max(gws, n as int) == 0);
    }
    #[verifier::loop_isolation(false)]
    while i > 0
        invariant
            0 <= i <= n,
            n == gws.len(),
            ws.deep_view() == gws,
            acc as nat == spec_group_max(gws, i as int),
        decreases i,
    {
        i -= 1;
        proof {
            assert(gws[i as int] == ws@[i as int]@);
        }
        if ws[i].reachable_unique_modules > acc {
            acc = ws[i].reachable_unique_modules;
        }
    }
    acc
}

fn insert_group(g: (String, Vec<Warning>), sorted: Vec<(String, Vec<Warning>)>) -> (r: Vec<
    (String, Vec<Warning>),
>)
    ensures
        groups_view(r@) == spec_insert_group(group_view_of(g), groups_view(sorted@)),
    decreases sorted@.len(),
{
    let ghost gs = groups_view(sorted@);
    let ghost ggv = group_view_of(g);
    let mut sorted = sorted;
    if sorted.len() == 0 {
        let mut out: Vec<(String, Vec<Warning>)> = Vec::new();
        out.push(g);
        proof {
            assert(groups_view(out@).len() == 1);
            assert(groups_view(out@)[0] == (out@[0].0@, out@[0].1.deep_view()));
            assert(groups_view(out@) =~= seq![ggv]);
        }
        return out;
    }
    let head = sorted.remove(0);
    let ghost gtail = groups_view(sorted@);
    proof {
        assert forall|k: int| 0 <= k < gtail.len() implies gtail[k] == gs.drop_first()[k] by {
            assert(gtail[k] == (sorted@[k].0@, sorted@[k].1.deep_view()));
        }
        assert(gtail =~= gs.drop_first());
        assert((head.0@, head.1.deep_view()) == gs[0]);
    }
    let head_max = group_max(&head.1);
    let g_max = group_max(&g.1);
    if head_max >= g_max {
        let mut rest = insert_group(g, sorted);
        let ghost grest = groups_view(rest@);
        let ghost grestv = rest@;
        let mut out: Vec<(String, Vec<Warning>)> = Vec::new();
        out.push(head);
        out.append(&mut rest);
        proof {
            assert forall|k: int| 0 <= k < groups_view(out@).len() implies groups_view(out@)[k]
                == (seq![gs[0]] + grest)[k] by {
                assert(groups_view(out@)[k] == (out@[k].0@, out@[k].1.deep_view()));
                if k >= 1 {
                    assert(out@[k] == grestv[k - 1]);
                    assert(grest[k - 1] == (grestv[k - 1].0@, grestv[k - 1].1.deep_view()));
                }
            }
            assert(groups_view(out@) =~= seq![gs[0]] + grest);
        }
        out
    } else {
        sorted.insert(0, head);
        proof {
            assert(groups_view(sorted@).len() == gs.len());
            assert forall|k: int| 0 <= k < gs.len() implies groups_view(sorted@)[k] == gs[k] by {
                assert(groups_view(sorted@)[k] == (sorted@[k].0@, sorted@[k].1.deep_view()));
            }
            assert(groups_view(sorted@) =~= gs);
        }
        let ghost gsv = sorted@;
        let mut out: Vec<(String, Vec<Warning>)> = Vec::new();
        out.push(g);
        out.append(&mut sorted);
        proof {
            assert forall|k: int| 0 <= k < groups_view(out@).len() implies groups_view(out@)[k]
                == (seq![ggv] + gs)[k] by {
                assert(groups_view(out@)[k] == (out@[k].0@, out@[k].1.deep_view()));
                if k >= 1 {
                    assert(out@[k] == gsv[k - 1]);
                    assert(gs[k - 1] == (gsv[k - 1].0@, gsv[k - 1].1.deep_view()));
                }
            }
            assert(groups_view(out@) =~= seq![ggv] + gs);
        }
        out
    }
}

/// One group as a mathematical value.
pub open spec fn group_view_of(g: (String, Vec<Warning>)) -> (Seq<char>, Seq<WarningModel>) {
    (g.0@, g.1.deep_view())
}

/// The groups in descending worst-count order; ties keep their
/// first-appearance relative order.
pub fn sort_groups(groups: Vec<(String, Vec<Warning>)>, sorted: Vec<(String, Vec<Warning>)>) -> (r:
    Vec<(String, Vec<Warning>)>)
    ensures
        groups_view(r@) == spec_sort_groups(groups_view(groups@), groups_view(sorted@)),
    decreases groups@.len(),
{
    let ghost gv = groups_view(groups@);
    let mut groups = groups;
    if groups.len() == 0 {
        return sorted;
    }
    let g = groups.remove(0);
    let ghost gtail = groups_view(groups@);
    proof {
        assert forall|k: int| 0 <= k < gtail.len() implies gtail[k] == gv.drop_first()[k] by {
            assert(gtail[k] == (groups@[k].0@, groups@[k].1.deep_view()));
        }
        assert(gtail =~= gv.drop_first());
        assert(group_view_of(g) == gv[0]);
    }
    let sorted2 = insert_group(g, sorted);
    sort_groups(groups, sorted2)
}

/// The first whole-graph warning of a group, if any.
fn find_entry_warning(ws: &Vec<Warning>) -> (r: Option<Warning>)
    ensures
        match r {
            Some(w) => spec_find_entry(ws.deep_view(), 0) == Some(w@),
            None => spec_find_entry(ws.deep_view(), 0) is None,
        },
{
    let ghost gws = ws.deep_view();
    let n = ws.len();
    let mut i: usize = 0;
    #[verifier::loop_isolation(false)]
    while i < n
        invariant
            0 <= i <= n,
            n == gws.len(),
            ws.deep_view() == gws,
            spec_find_entry(gws, 0) == spec_find_entry(gws, i as int),
        decreases n - i,
    {
        proof {
            assert(gws[i as int] == ws@[i as int]@);
        }
        if is_entry_warning(&ws[i]) {
            return Some(copy_warning(&ws[i]));
        }
        i += 1;
    }
    None
}

/// A group's per-import warnings, whole-graph markers left out.
fn non_entry_warnings(ws: &Vec<Warning>) -> (r: Vec<Warning>)
    ensures
        r.deep_view() == spec_non_entry(ws.deep_view(), 0),
{
    let ghost gws = ws.deep_view();
    let mut out: Vec<Warning> = Vec::new();
    let n = ws.len();
    let mut i: usize = 0;
    proof {
        assert(out.deep_view() + spec_non_entry(gws, 0) =~= spec_non_entry(gws, 0));
    }
    #[verifier::loop_isolation(false)]
    while i < n
        invariant
            0 <= i <= n,
            n == gws.len(),
            ws.deep_view() == gws,
            spec_non_entry(gws, 0) =~= out.deep_view() + spec_non_entry(gws, i as int),
        decreases n - i,
    {
        proof {
            assert(gws[i as int] == ws@[i as int]@);
        }
        if !is_entry_warning(&ws[i]) {
            let ghost opre = *&out;
            out.push(copy_warning(&ws[i]));
            proof {
                lemma_vec_deep_push(opre, out, out@[out@.len() - 1]);
                assert((opre.deep_view() + (seq![gws[i as int]] + spec_non_entry(gws, i + 1)))
                    =~= out.deep_view() + spec_non_entry(gws, i + 1));
            }
        }
        i += 1;
    }
    proof {
        assert(spec_non_entry(gws, n as int) =~= Seq::<WarningModel>::empty());
        assert(out.deep_view() + Seq::<WarningModel>::empty() =~= out.deep_view());
    }
    out
}

/// One rendered warning line: the source file, the import text and the
/// offending count.
pub open spec fn spec_warning_line(w: WarningModel) -> Seq<char> {
    w.from_file + ": "@ + w.import_statement + " ("@ + spec_decimal(w.reachable_unique_modules)
        + " modules)\n"@
}

/// The rendered lines of a warning list, in order.
pub open spec fn spec_warning_lines(ws: Seq<WarningModel>, i: int) -> Seq<char>
    decreases ws.len() - i,
{
    if i < 0 || i >= ws.len() {
        Seq::empty()
    } else {
        spec_warning_line(ws[i]) + spec_warning_lines(ws, i + 1)
    }
}

fn warning_line(w: &Warning) -> (r: String)
    ensures
        r@ == spec_warning_line(w@),
{
    let mut line = concat_str(w.from_file.as_str(), ": ");
    line.append(w.import_statement.as_str());
    line.append(" (");
    let count = usize_to_string(w.reachable_unique_modules);
    line.append(count.as_str());
    line.append(" modules)\n");
    proof {
        assert(line@ =~= spec_warning_line(w@));
    }
    line
}

/// The rendered lines of a warning list.
fn render_lines(ws: &Vec<Warning>) -> (r: String)
    ensures
        r@ == spec_warning_lines(ws.deep_view(), 0),
{
    let ghost gws = ws.deep_view();
    let mut out = String::new();
    let n = ws.len();
    let mut i: usize = 0;
    proof {
        assert(out@ + spec_warning_lines(gws, 0) =~= spec_warning_lines(gws, 0));
    }
    #[verifier::loop_isolation(false)]
    while i < n
        invariant
            0 <= i <= n,
            n == gws.len(),
            ws.deep_view() == gws,
            spec_warning_lines(gws, 0) == out@ + spec_warning_lines(gws, i as int),
        decreases n - i,
    {
        let line = warning_line(&ws[i]);
        proof {
            assert(gws[i as int] == ws@[i as int]@);
        }
        out.append(line.as_str());
        proof {
            assert(out@ + spec_warning_lines(gws, i + 1) =~= spec_warning_lines(gws, 0));
        }
        i += 1;
    }
    out
}

/// One per-import line of the tree: its branch mark (the last line gets
/// the closing one), the resolved target as an import statement (or the
/// raw statement text when nothing resolved), and the count.
pub open spec fn spec_import_line(w: WarningModel, last: bool) -> Seq<char> {
    (if last {
        "└──"@
    } else {
        "├──"@
    }) + "  "@ + (match w.resolved_path {
        Some(p) => "import '"@ + p + "'"@,
        None => w.import_statement,
    }) + " ("@ + spec_decimal(w.reachable_unique_modules) + " modules)\n"@
}

/// A group's per-import lines from position `i` on.
pub open spec fn spec_group_lines(ws: Seq<WarningModel>, i: int) -> Seq<char>
    decreases ws.len() - i,
{
    if i < 0 || i >= ws.len() {
        Seq::empty()
    } else {
        spec_import_line(ws[i], i == ws.len() - 1) + spec_group_lines(ws, i + 1)
    }
}

/// One group of the tree: the file on the header line — with the
/// whole-graph count when the group holds such a warning — then the
/// per-import warnings in descending count order, then a blank line.
pub open spec fn spec_group_text(file: Seq<char>, ws: Seq<WarningModel>) -> Seq<char> {
    (match spec_find_entry(ws, 0) {
        Some(e) => file + " ("@ + spec_decimal(e.reachable_unique_modules) + " modules)\n"@,
        None => file + "\n"@,
    }) + spec_group_lines(spec_sort_desc(spec_non_entry(ws, 0), 0, Seq::empty()), 0) + "\n"@
}

/// The tree's groups from position `i` on.
pub open spec fn spec_groups_text(gv: Seq<(Seq<char>, Seq<WarningModel>)>, i: int) -> Seq<char>
    decreases gv.len() - i,
{
    if i < 0 || i >= gv.len() {
        Seq::empty()
    } else {
        spec_group_text(gv[i].0, gv[i].1) + spec_groups_text(gv, i + 1)
    }
}

/// The trailing summary: total violation count, worst count observed,
/// and the top offenders by count (at most five).
pub open spec fn spec_summary(ws: Seq<WarningModel>) -> Seq<char> {
    let sorted = spec_sort_desc(ws, 0, Seq::empty());
    let shown = if sorted.len() <= 5 {
        sorted
    } else {
        sorted.take(5)
    };
    "Total: "@ + spec_decimal(ws.len()) + " violations, worst "@ + spec_decimal(
        if sorted.len() == 0 {
            0
        } else {
            sorted[0].reachable_unique_modules
        },
    ) + " modules. Top offenders:\n"@ + spec_warning_lines(shown, 0)
}

/// The whole warning report: a header with the threshold; one group per
/// distinct source file, groups in descending worst-count order, each
/// warning rendered exactly once (whole-graph warnings on their group's
/// header, the rest as tree lines in descending count order); and the
/// trailing summary.
pub open spec fn spec_render_report(ws: Seq<WarningModel>, threshold: nat) -> Seq<char> {
    "Import bloat detected (threshold: "@ + spec_decimal(threshold) + " modules)\n\n"@
        + spec_groups_text(
        spec_sort_groups(spec_group_by_file(ws, 0, Seq::empty()), Seq::empty()),
        0,
    ) + spec_summary(ws)
}

fn import_line(w: &Warning, last: bool) -> (r: String)
    ensures
        r@ == spec_import_line(w@, last),
{
    let prefix = if last {
        "└──"
    } else {
        "├──"
    };
    let mut line = concat_str(prefix, "  ");
    match &w.resolved_path {
        Some(p) => {
            line.append("import '");
            line.append(p.as_str());
            line.append("'");
        },
        None => {
            line.append(w.import_statement.as_str());
        },
    }
    line.append(" (");
    let count = usize_to_string(w.reachable_unique_modules);
    line.append(count.as_str());
    line.append(" modules)\n");
    proof {
        assert(line@ =~= spec_import_line(w@, last));
    }
    line
}

/// One group of the tree rendered: header, sorted per-import lines, a
/// blank line.
fn render_group(file: &String, ws: &Vec<Warning>) -> (r: String)
    ensures
        r@ == spec_group_text(file@, ws.deep_view()),
{
    let mut out = match find_entry_warning(ws) {
        Some(e) => {
            let mut h = concat_str(file.as_str(), " (");
            let count = usize_to_string(e.reachable_unique_modules);
            h.append(count.as_str());
            h.append(" modules)\n");
            h
        },
        None => concat_str(file.as_str(), "\n"),
    };
    let imports = non_entry_warnings(ws);
    let sorted = sort_warnings_desc(&imports);
    let ghost gs = sorted.deep_view();
    let n = sorted.len();
    let mut body = String::new();
    let mut j: usize = 0;
    proof {
        assert(body@ + spec_group_lines(gs, 0) =~= spec_group_lines(gs, 0));
    }
    #[verifier::loop_isolation(false)]
    while j < n
        invariant
            0 <= j <= n,
            n == gs.len(),
            sorted.deep_view() == gs,
            spec_group_lines(gs, 0) == body@ + spec_group_lines(gs, j as int),
        decreases n - j,
    {
        let line = import_line(&sorted[j], j == n - 1);
        proof {
            assert(gs[j as int] == sorted@[j as int]@);
        }
        body.append(line.as_str());
        proof {
            assert(body@ + spec_group_lines(gs, j + 1) =~= spec_group_lines(gs, 0));
        }
        j += 1;
    }
    out.append(body.as_str());
    out.append("\n");
    proof {
        assert(out@ =~= spec_group_text(file@, ws.deep_view()));
    }
    out
}

/// The whole tree of groups rendered.
fn render_groups(groups: &Vec<(String, Vec<Warning>)>) -> (r: String)
    ensures
        r@ == spec_groups_text(groups_view(groups@), 0),
{
    let ghost gv = groups_view(groups@);
    let mut out = String::new();
    let n = groups.len();
    let mut i: usize = 0;
    proof {
        assert(out@ + spec_groups_text(gv, 0) =~= spec_groups_text(gv, 0));
    }
    #[verifier::loop_isolation(false)]
    while i < n
        invariant
            0 <= i <= n,
            n == gv.len(),
            groups_view(groups@) == gv,
            spec_groups_text(gv, 0) == out@ + spec_groups_text(gv, i as int),
        decreases n - i,
    {
        let g = &groups[i];
        let text = render_group(&g.0, &g.1);
        proof {
            assert(gv[i as int] == (groups@[i as int].0@, groups@[i as int].1.deep_view()));
        }
        out.append(text.as_str());
        proof {
            assert(out@ + spec_groups_text(gv, i + 1) =~= spec_groups_text(gv, 0));
        }
        i += 1;
    }
    out
}

/// Renders the warning report: the grouped tree, then the summary.
pub fn render_warnings_tree(warnings: &Vec<Warning>, threshold: usize) -> (r: String)
    ensures
        r@ == spec_render_report(warnings.deep_view(), threshold as nat),
{
    let groups = group_by_file(warnings);
    let empty_sorted: Vec<(String, Vec<Warning>)> = Vec::new();
    proof {
        assert(groups_view(empty_sorted@) =~= Seq::<(Seq<char>, Seq<WarningModel>)>::empty());
    }
    let sorted_groups = sort_groups(groups, empty_sorted);
    let mut out = concat_str(
        "Import bloat detected (threshold: ",
        usize_to_string(threshold).as_str(),
    );
    out.append(" modules)\n\n");
    let tree = render_groups(&sorted_groups);
    out.append(tree.as_str());
    let sorted = sort_warnings_desc(warnings);
    let ghost gsorted = sorted.deep_view();
    out.append("Total: ");
    let total = usize_to_string(warnings.len());
    proof {
        assert(warnings.deep_view().len() == warnings@.len());
    }
    out.append(total.as_str());
    out.append(" violations, worst ");
    let worst = if sorted.len() == 0 {
        usize_to_string(0)
    } else {
        usize_to_string(sorted[0].reachable_unique_modules)
    };
    proof {
        if gsorted.len() > 0 {
            assert(gsorted[0] == sorted@[0]@);
        }
    }
    out.append(worst.as_str());
    out.append(" modules. Top offenders:\n");
    let mut shown: Vec<Warning> = Vec::new();
    let cap = if sorted.len() <= 5 {
        sorted.len()
    } else {
        5
    };
    let mut i: usize = 0;
    while i < cap
        invariant
            0 <= i <= cap,
            cap <= sorted@.len(),
            sorted.deep_view() == gsorted,
            shown.deep_view() =~= gsorted.take(cap as int).take(i as int),
        decreases cap - i,
    {
        let ghost spre = *&shown;
        shown.push(copy_warning(&sorted[i]));
        proof {
            lemma_vec_deep_push(spre, shown, shown@[shown@.len() - 1]);
            assert(gsorted[i as int] == sorted@[i as int]@);
            assert(shown.deep_view() =~= gsorted.take(cap as int).take(i + 1));
        }
        i += 1;
    }
    proof {
        assert(gsorted.take(cap as int).take(cap as int) =~= gsorted.take(cap as int));
        assert(shown.deep_view() =~= gsorted.take(cap as int));
        if gsorted.len() <= 5 {
            assert(gsorted.take(cap as int) =~= gsorted);
            assert(shown.deep_view() =~= gsorted);
        } else {
            assert(shown.deep_view() =~= gsorted.take(5));
        }
    }
    let tail = render_lines(&shown);
    out.append(tail.as_str());
    proof {
        assert(out@ =~= spec_render_report(warnings.deep_view(), threshold as nat));
    }
    out
}

/// The line printed when nothing crossed the threshold.
pub open spec fn spec_no_bloat_line(threshold: nat) -> Seq<char> {
    "No bloat detected. Threshold: "@ + spec_decimal(threshold) + "\n"@
}

/// Relies on std::io::Write::write_all: hands the whole string to the
/// writer, reporting success.
#[verifier::external_body]
fn write_text<W: std::io::Write>(w: &mut W, s: &str) -> (r: bool) {
    w.write_all(s.as_bytes()).is_ok()
}

/// Relies on std::io::Write::flush: empties the writer's buffer,
/// reporting success.
#[verifier::external_body]
fn flush_writer<W: std::io::Write>(w: &mut W) -> (r: bool) {
    w.flush().is_ok()
}

/// The all-clear line as it is printed.
pub fn render_no_bloat_line(threshold: usize) -> (r: String)
    ensures
        r@ == spec_no_bloat_line(threshold as nat),
{
    let mut line = concat_str(
        "No bloat detected. Threshold: ",
        usize_to_string(threshold).as_str(),
    );
    line.append("\n");
    proof {
        assert(line@ =~= spec_no_bloat_line(threshold as nat));
    }
    line
}

/// Prints the all-clear line with the configured threshold; `true` when
/// the writer took and flushed it.
pub fn print_no_bloat_message<W: std::io::Write>(writer: &mut W, threshold: usize) -> (ok: bool) {
    let line = render_no_bloat_line(threshold);
    let wrote = write_text(writer, line.as_str());
    let flushed = flush_writer(writer);
    wrote && flushed
}

/// Prints the warning report for the run, warnings in descending count
/// order with the summary appended; `true` when the writer took and
/// flushed it.
#[allow(unused_variables)]
pub fn print_warnings_tree<W: std::io::Write>(
    writer: &mut W,
    warnings: &Vec<Warning>,
    cfg: &Config,
    threshold: usize,
) -> (ok: bool) {
    let report = render_warnings_tree(warnings, threshold);
    let wrote = write_text(writer, report.as_str());
    let flushed = flush_writer(writer);
    wrote && flushed
}

} // verus!
