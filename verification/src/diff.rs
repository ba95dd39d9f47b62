use vstd::prelude::*;

use crate::report::{BatchReport, FileReport};
use crate::seqs::{dedup, distinct_with_counts, index_of_chars, lemma_dedup_contains, views};
use crate::seqs::string_views;
use crate::text::{chars_of, string_of};
use crate::validate::{Finding, FindingView, Status};

verus! {

/// How the outcome of one file changed between two runs.
#[derive(Debug, Clone, PartialEq, Eq)]
pub struct FileDiff {
    pub path: String,
    pub before_status: Status,
    pub after_status: Status,
    pub added_findings: Vec<Finding>,
    pub removed_findings: Vec<Finding>,
}

/// The content of a file diff.
pub struct FileDiffView {
    pub path: Seq<char>,
    pub before_status: Status,
    pub after_status: Status,
    pub added_findings: Seq<FindingView>,
    pub removed_findings: Seq<FindingView>,
}

impl View for FileDiff {
    type V = FileDiffView;

    open spec fn view(&self) -> FileDiffView {
        FileDiffView {
            path: self.path@,
            before_status: self.before_status,
            after_status: self.after_status,
            added_findings: self.added_findings.deep_view(),
            removed_findings: self.removed_findings.deep_view(),
        }
    }
}

impl DeepView for FileDiff {
    type V = FileDiffView;

    open spec fn deep_view(&self) -> FileDiffView {
        self@
    }
}

/// The difference between two QC runs.
#[derive(Debug, Clone, PartialEq, Eq)]
pub struct ReportDiff {
    pub added_files: Vec<String>,
    pub removed_files: Vec<String>,
    pub changed_files: Vec<FileDiff>,
}

/// The paths of the files of a report.
pub open spec fn report_paths(files: Seq<FileReport>) -> Seq<Seq<char>> {
    files.map_values(|f: FileReport| f.path@)
}

/// The index of the last file with path `p`, or -1.
pub open spec fn last_with_path(files: Seq<FileReport>, p: Seq<char>) -> int
    decreases files.len(),
{
    if files.len() == 0 {
        -1
    } else if files.last().path@ == p {
        files.len() - 1
    } else {
        last_with_path(files.drop_last(), p)
    }
}

/// The paths of `ps` that are not among `others`.
pub open spec fn paths_not_in(ps: Seq<Seq<char>>, others: Seq<Seq<char>>) -> Seq<Seq<char>>
    decreases ps.len(),
{
    if ps.len() == 0 {
        Seq::empty()
    } else {
        paths_not_in(ps.drop_last(), others) + if others.contains(ps.last()) {
            Seq::empty()
        } else {
            seq![ps.last()]
        }
    }
}

/// The findings of `right` that are not in `left`.
pub open spec fn delta(left: Seq<FindingView>, right: Seq<FindingView>) -> Seq<FindingView>
    decreases right.len(),
{
    if right.len() == 0 {
        Seq::empty()
    } else {
        delta(left, right.drop_last()) + if left.contains(right.last()) {
            Seq::empty()
        } else {
            seq![right.last()]
        }
    }
}

/// The change of the file at path `p`, when it differs in status or
/// findings.
pub open spec fn change_of(b: FileReport, a: FileReport, p: Seq<char>) -> Seq<FileDiffView> {
    if b.status != a.status || b.findings.deep_view() != a.findings.deep_view() {
        seq![
            FileDiffView {
                path: p,
                before_status: b.status,
                after_status: a.status,
                added_findings: delta(b.findings.deep_view(), a.findings.deep_view()),
                removed_findings: delta(a.findings.deep_view(), b.findings.deep_view()),
            },
        ]
    } else {
        Seq::empty()
    }
}

/// The changes of the files at paths `ps` that are in both runs (a path
/// that occurs twice in a run stands for its last file).
pub open spec fn changes(ps: Seq<Seq<char>>, before: Seq<FileReport>, after: Seq<FileReport>) -> Seq<
    FileDiffView,
>
    decreases ps.len(),
{
    if ps.len() == 0 {
        Seq::empty()
    } else {
        let p = ps.last();
        let bi = last_with_path(before, p);
        let ai = last_with_path(after, p);
        changes(ps.drop_last(), before, after) + if bi >= 0 && ai >= 0 {
            change_of(before[bi], after[ai], p)
        } else {
            Seq::empty()
        }
    }
}

/// The files added, the files removed and the files changed from `before`
/// to `after`, each in the order of first occurrence.
pub open spec fn diff_spec(before: Seq<FileReport>, after: Seq<FileReport>) -> (
    Seq<Seq<char>>,
    Seq<Seq<char>>,
    Seq<FileDiffView>,
) {
    let bp = report_paths(before);
    let ap = report_paths(after);
    (
        paths_not_in(dedup(ap), bp),
        paths_not_in(dedup(bp), ap),
        changes(dedup(ap), before, after),
    )
}

/// The paths of a report's files, as character vectors.
fn path_list(files: &Vec<FileReport>) -> (out: Vec<Vec<char>>)
    ensures
        views(out@) == report_paths(files@),
{
    let n = files.len();
    let mut out: Vec<Vec<char>> = Vec::new();
    let mut i: usize = 0;
    while i < n
        invariant
            n == files@.len(),
            i <= n,
            views(out@) == report_paths(files@.take(i as int)),
        decreases n - i,
    {
        let ghost before = views(out@);
        out.push(chars_of(files[i].path.as_str()));
        assert(views(out@) =~= before.push(files@[i as int].path@));
        assert(report_paths(files@.take(i + 1)) =~= report_paths(files@.take(i as int)).push(
            files@[i as int].path@,
        ));
        i = i + 1;
    }
    assert(files@.take(n as int) =~= files@);
    out
}

proof fn lemma_last_with_path(files: Seq<FileReport>, p: Seq<char>, k: int)
    requires
        -1 <= k < files.len(),
        k >= 0 ==> files[k].path@ == p,
        forall|j: int| k < j < files.len() ==> files[j].path@ != p,
    ensures
        last_with_path(files, p) == k,
    decreases files.len(),
{
    if files.len() > 0 && files.last().path@ != p {
        let t = files.drop_last();
        assert forall|j: int| k < j < t.len() implies t[j].path@ != p by {
            assert(t[j] == files[j]);
        }
        if k >= 0 {
            assert(t[k] == files[k]);
        }
        lemma_last_with_path(t, p, k);
    }
}

/// The index of the last file at path `p`.
fn find_last_path(files: &Vec<FileReport>, paths: &Vec<Vec<char>>, p: &[char]) -> (r: Option<usize>)
    requires
        views(paths@) == report_paths(files@),
    ensures
        match r {
            Some(i) => i < files@.len() && i as int == last_with_path(files@, p@),
            None => last_with_path(files@, p@) == -1,
        },
{
    assert(paths@.len() == files@.len()) by {
        assert(views(paths@).len() == paths@.len());
    }
    let mut i: usize = paths.len();
    while i > 0
        invariant
            i <= files@.len(),
            files@.len() == paths@.len(),
            views(paths@) == report_paths(files@),
            forall|j: int| i <= j < files@.len() ==> files@[j].path@ != p@,
        decreases i,
    {
        assert(views(paths@)[i - 1] == paths@[i - 1]@);
        if crate::text::chars_eq(paths[i - 1].as_slice(), p) {
            proof {
                lemma_last_with_path(files@, p@, i - 1);
            }
            return Some(i - 1);
        }
        i = i - 1;
    }
    proof {
        lemma_last_with_path(files@, p@, -1);
    }
    None
}

/// Whether two findings are the same.
fn finding_eq(a: &Finding, b: &Finding) -> (r: bool)
    ensures
        r == (a@ == b@),
{
    a.code == b.code && a.severity == b.severity && a.message == b.message
}

/// Whether two lists of findings are the same.
fn findings_eq(a: &Vec<Finding>, b: &Vec<Finding>) -> (r: bool)
    ensures
        r == (a.deep_view() == b.deep_view()),
{
    if a.len() != b.len() {
        assert(a.deep_view().len() != b.deep_view().len());
        return false;
    }
    let n = a.len();
    let mut i: usize = 0;
    while i < n
        invariant
            n == a@.len(),
            n == b@.len(),
            i <= n,
            forall|j: int| 0 <= j < i ==> a@[j]@ == b@[j]@,
        decreases n - i,
    {
        if !finding_eq(&a[i], &b[i]) {
            assert(a.deep_view()[i as int] != b.deep_view()[i as int]);
            return false;
        }
        i = i + 1;
    }
    assert(a.deep_view() =~= b.deep_view());
    true
}

/// Whether `f` is among `list`.
fn contains_finding(list: &[Finding], f: &Finding) -> (r: bool)
    ensures
        r == list.deep_view().contains(f@),
{
    let n = list.len();
    let mut i: usize = 0;
    while i < n
        invariant
            n == list@.len(),
            i <= n,
            forall|j: int| 0 <= j < i ==> list@[j]@ != f@,
        decreases n - i,
    {
        if finding_eq(&list[i], f) {
            assert(list.deep_view()[i as int] == f@);
            return true;
        }
        i = i + 1;
    }
    assert forall|j: int| 0 <= j < list.deep_view().len() implies list.deep_view()[j] != f@ by {
        assert(list.deep_view()[j] == list@[j]@);
    }
    false
}

/// The findings of `right` that are not in `left`.
pub fn finding_delta(left: &[Finding], right: &[Finding]) -> (out: Vec<Finding>)
    ensures
        out.deep_view() == delta(left.deep_view(), right.deep_view()),
{
    let n = right.len();
    let mut out: Vec<Finding> = Vec::new();
    let mut i: usize = 0;
    while i < n
        invariant
            n == right@.len(),
            i <= n,
            out.deep_view() == delta(left.deep_view(), right.deep_view().take(i as int)),
        decreases n - i,
    {
        let ghost pre = right.deep_view().take(i as int);
        assert(right.deep_view().take(i + 1).drop_last() =~= pre);
        assert(right.deep_view().take(i + 1).last() == right@[i as int]@);
        let ghost before = out.deep_view();
        if !contains_finding(left, &right[i]) {
            out.push(right[i].duplicate());
            assert(out.deep_view() =~= before + seq![right@[i as int]@]);
        } else {
            assert(out.deep_view() =~= before + Seq::<FindingView>::empty());
        }
        i = i + 1;
    }
    assert(right.deep_view().take(n as int) =~= right.deep_view());
    out
}

/// The paths of `ps` that are not among `others`.
fn keep_paths_not_in(ps: &Vec<Vec<char>>, others: &Vec<Vec<char>>) -> (out: Vec<String>)
    ensures
        string_views(out@) == paths_not_in(views(ps@), views(others@)),
{
    let n = ps.len();
    let mut out: Vec<String> = Vec::new();
    let mut i: usize = 0;
    while i < n
        invariant
            n == ps@.len(),
            i <= n,
            string_views(out@) == paths_not_in(views(ps@).take(i as int), views(others@)),
        decreases n - i,
    {
        let ghost pre = views(ps@).take(i as int);
        assert(views(ps@).take(i + 1).drop_last() =~= pre);
        assert(views(ps@).take(i + 1).last() == ps@[i as int]@);
        let ghost before = string_views(out@);
        match index_of_chars(others, ps[i].as_slice()) {
            Some(j) => {
                assert(views(others@)[j as int] == ps@[i as int]@);
                assert(string_views(out@) =~= before + Seq::<Seq<char>>::empty());
            },
            None => {
                assert(!views(others@).contains(ps@[i as int]@)) by {
                    if views(others@).contains(ps@[i as int]@) {
                        let j = choose|j: int| 0 <= j < views(others@).len() && views(others@)[j] == ps@[i as int]@;
                        assert(views(others@)[j] == others@[j]@);
                    }
                }
                out.push(string_of(ps[i].as_slice()));
                assert(string_views(out@) =~= before + seq![ps@[i as int]@]);
            },
        }
        i = i + 1;
    }
    assert(views(ps@).take(n as int) =~= views(ps@));
    out
}

/// Compares two QC runs: the files only in `after`, the files only in
/// `before`, and the files in both whose status or findings changed.
pub fn diff_reports(before: &BatchReport, after: &BatchReport) -> (d: ReportDiff)
    ensures
        string_views(d.added_files@) == diff_spec(before.files@, after.files@).0,
        string_views(d.removed_files@) == diff_spec(before.files@, after.files@).1,
        d.changed_files.deep_view() == diff_spec(before.files@, after.files@).2,
{
    let before_paths = path_list(&before.files);
    let after_paths = path_list(&after.files);
    let (after_distinct, _c1) = distinct_with_counts(&after_paths);
    let (before_distinct, _c2) = distinct_with_counts(&before_paths);
    let added_files = keep_paths_not_in(&after_distinct, &before_paths);
    let removed_files = keep_paths_not_in(&before_distinct, &after_paths);
    let ghost ps = views(after_distinct@);
    let n = after_distinct.len();
    let mut changed_files: Vec<FileDiff> = Vec::new();
    let mut i: usize = 0;
    while i < n
        invariant
            n == after_distinct@.len(),
            ps == views(after_distinct@),
            views(before_paths@) == report_paths(before.files@),
            views(after_paths@) == report_paths(after.files@),
            i <= n,
            changed_files.deep_view() == changes(ps.take(i as int), before.files@, after.files@),
        decreases n - i,
    {
        let ghost pre = ps.take(i as int);
        assert(ps.take(i + 1).drop_last() =~= pre);
        assert(ps.take(i + 1).last() == after_distinct@[i as int]@);
        let ghost prev = changed_files.deep_view();
        let p = after_distinct[i].as_slice();
        let bi = find_last_path(&before.files, &before_paths, p);
        let ai = find_last_path(&after.files, &after_paths, p);
        match (bi, ai) {
            (Some(bi), Some(ai)) => {
                let b = &before.files[bi];
                let a = &after.files[ai];
                if b.status != a.status || !findings_eq(&b.findings, &a.findings) {
                    let diff = FileDiff {
                        path: string_of(p),
                        before_status: b.status,
                        after_status: a.status,
                        added_findings: finding_delta(b.findings.as_slice(), a.findings.as_slice()),
                        removed_findings: finding_delta(a.findings.as_slice(), b.findings.as_slice()),
                    };
                    changed_files.push(diff);
                    assert(changed_files.deep_view() =~= prev + change_of(
                        before.files@[bi as int],
                        after.files@[ai as int],
                        after_distinct@[i as int]@,
                    ));
                } else {
                    assert(changed_files.deep_view() =~= prev + Seq::<FileDiffView>::empty());
                }
            },
            _ => {
                assert(changed_files.deep_view() =~= prev + Seq::<FileDiffView>::empty());
            },
        }
        i = i + 1;
    }
    assert(ps.take(n as int) =~= ps);
    ReportDiff { added_files, removed_files, changed_files }
}

proof fn lemma_paths_not_in_covered(ps: Seq<Seq<char>>, others: Seq<Seq<char>>)
    requires
        forall|i: int| 0 <= i < ps.len() ==> others.contains(#[trigger] ps[i]),
    ensures
        paths_not_in(ps, others) == Seq::<Seq<char>>::empty(),
    decreases ps.len(),
{
    if ps.len() > 0 {
        let t = ps.drop_last();
        assert forall|i: int| 0 <= i < t.len() implies others.contains(#[trigger] t[i]) by {
            assert(t[i] == ps[i]);
        }
        lemma_paths_not_in_covered(t, others);
        assert(others.contains(ps[ps.len() - 1]));
    }
}

proof fn lemma_changes_same(ps: Seq<Seq<char>>, files: Seq<FileReport>)
    ensures
        changes(ps, files, files) == Seq::<FileDiffView>::empty(),
    decreases ps.len(),
{
    if ps.len() > 0 {
        lemma_changes_same(ps.drop_last(), files);
    }
}

/// Comparing a run with itself finds nothing added, removed or changed.
pub proof fn law_diff_of_same_run_is_empty(files: Seq<FileReport>)
    ensures
        diff_spec(files, files).0.len() == 0,
        diff_spec(files, files).1.len() == 0,
        diff_spec(files, files).2.len() == 0,
{
    let ps = report_paths(files);
    let d = dedup(ps);
    assert forall|i: int| 0 <= i < d.len() implies ps.contains(#[trigger] d[i]) by {
        lemma_dedup_contains(ps, d[i]);
        assert(d.contains(d[i]));
    }
    lemma_paths_not_in_covered(d, ps);
    lemma_changes_same(d, files);
}

proof fn lemma_paths_not_in(ps: Seq<Seq<char>>, others: Seq<Seq<char>>)
    ensures
        forall|x: Seq<char>| #[trigger] paths_not_in(ps, others).contains(x) <==> ps.contains(x) && !others.contains(x),
        ps.no_duplicates() ==> paths_not_in(ps, others).no_duplicates(),
    decreases ps.len(),
{
    if ps.len() > 0 {
        let t = ps.drop_last();
        let l = ps.last();
        lemma_paths_not_in(t, others);
        let prev = paths_not_in(t, others);
        let tail = if others.contains(l) { Seq::<Seq<char>>::empty() } else { seq![l] };
        assert(paths_not_in(ps, others) == prev + tail);
        assert forall|x: Seq<char>| #[trigger] paths_not_in(ps, others).contains(x) <==> ps.contains(x) && !others.contains(x) by {
            if paths_not_in(ps, others).contains(x) {
                let j = choose|j: int| 0 <= j < (prev + tail).len() && (prev + tail)[j] == x;
                if j < prev.len() {
                    assert(prev[j] == x);
                    assert(prev.contains(x));
                    let m = choose|m: int| 0 <= m < t.len() && t[m] == x;
                    assert(ps[m] == x);
                } else {
                    assert(x == l);
                    assert(ps[ps.len() - 1] == x);
                }
            }
            if ps.contains(x) && !others.contains(x) {
                let m = choose|m: int| 0 <= m < ps.len() && ps[m] == x;
                if m < t.len() {
                    assert(t[m] == x);
                    assert(t.contains(x));
                    assert(prev.contains(x));
                    let j = choose|j: int| 0 <= j < prev.len() && prev[j] == x;
                    assert((prev + tail)[j] == x);
                } else {
                    assert((prev + tail)[prev.len() as int] == x);
                }
            }
        }
        if ps.no_duplicates() {
            assert(t.no_duplicates()) by {
                assert forall|a: int, b: int| 0 <= a < t.len() && 0 <= b < t.len() && a != b implies t[a] != t[b] by {
                    assert(t[a] == ps[a] && t[b] == ps[b]);
                }
            }
            if !others.contains(l) {
                assert(!prev.contains(l)) by {
                    if prev.contains(l) {
                        assert(t.contains(l));
                        let m = choose|m: int| 0 <= m < t.len() && t[m] == l;
                        assert(ps[m] == ps[ps.len() - 1]);
                    }
                }
                let e = prev + tail;
                assert forall|a: int, b: int| 0 <= a < e.len() && 0 <= b < e.len() && a != b implies e[a] != e[b] by {
                    if a == prev.len() {
                        assert(e[b] == prev[b]);
                    } else if b == prev.len() {
                        assert(e[a] == prev[a]);
                    } else {
                        assert(e[a] == prev[a] && e[b] == prev[b]);
                    }
                }
            } else {
                assert(prev + tail =~= prev);
            }
        }
    }
}

/// The files added and the files removed are the paths of one run that
/// the other lacks, each named once.
pub proof fn law_added_and_removed_are_set_differences(before: Seq<FileReport>, after: Seq<FileReport>)
    ensures
        diff_spec(before, after).0.no_duplicates(),
        diff_spec(before, after).1.no_duplicates(),
        forall|p: Seq<char>|
            #[trigger] diff_spec(before, after).0.contains(p) <==> report_paths(after).contains(p)
                && !report_paths(before).contains(p),
        forall|p: Seq<char>|
            #[trigger] diff_spec(before, after).1.contains(p) <==> report_paths(before).contains(p)
                && !report_paths(after).contains(p),
{
    let bp = report_paths(before);
    let ap = report_paths(after);
    crate::seqs::lemma_dedup_unique(ap);
    crate::seqs::lemma_dedup_unique(bp);
    lemma_paths_not_in(dedup(ap), bp);
    lemma_paths_not_in(dedup(bp), ap);
    assert forall|p: Seq<char>| #[trigger] diff_spec(before, after).0.contains(p) <==> ap.contains(p) && !bp.contains(p) by {
        lemma_dedup_contains(ap, p);
    }
    assert forall|p: Seq<char>| #[trigger] diff_spec(before, after).1.contains(p) <==> bp.contains(p) && !ap.contains(p) by {
        lemma_dedup_contains(bp, p);
    }
}

/// The files at `p` differ in status or findings, the last file of each
/// run with that path standing for it.
pub open spec fn differs_at(before: Seq<FileReport>, after: Seq<FileReport>, p: Seq<char>) -> bool {
    let bi = last_with_path(before, p);
    let ai = last_with_path(after, p);
    bi >= 0 && ai >= 0 && change_of(before[bi], after[ai], p).len() > 0
}

proof fn lemma_last_with_path_range(files: Seq<FileReport>, p: Seq<char>)
    ensures
        -1 <= last_with_path(files, p) < files.len(),
        last_with_path(files, p) >= 0 ==> files[last_with_path(files, p)].path@ == p,
        last_with_path(files, p) >= 0 <==> report_paths(files).contains(p),
    decreases files.len(),
{
    if files.len() > 0 {
        let t = files.drop_last();
        lemma_last_with_path_range(t, p);
        if files.last().path@ != p {
            assert(t.len() < files.len());
            if last_with_path(t, p) >= 0 {
                assert(files[last_with_path(t, p)] == t[last_with_path(t, p)]);
                assert(report_paths(files)[last_with_path(t, p)] == p);
            }
            if report_paths(files).contains(p) {
                let m = choose|m: int| 0 <= m < report_paths(files).len() && report_paths(files)[m] == p;
                assert(m != files.len() - 1);
                assert(report_paths(t)[m] == p);
            }
        } else {
            assert(report_paths(files)[files.len() - 1] == p);
        }
    } else {
        assert(!report_paths(files).contains(p));
    }
}

proof fn lemma_changes(ps: Seq<Seq<char>>, before: Seq<FileReport>, after: Seq<FileReport>)
    ensures
        forall|k: int|
            0 <= k < changes(ps, before, after).len() ==> {
                let c = #[trigger] changes(ps, before, after)[k];
                &&& ps.contains(c.path)
                &&& differs_at(before, after, c.path)
                &&& seq![c] == change_of(
                    before[last_with_path(before, c.path)],
                    after[last_with_path(after, c.path)],
                    c.path,
                )
            },
        forall|p: Seq<char>|
            ps.contains(p) && #[trigger] differs_at(before, after, p) ==> exists|k: int|
                0 <= k < changes(ps, before, after).len() && (#[trigger] changes(ps, before, after)[k]).path
                    == p,
        ps.no_duplicates() ==> forall|k1: int, k2: int|
            0 <= k1 < changes(ps, before, after).len() && 0 <= k2 < changes(ps, before, after).len() && k1
                != k2 ==> (#[trigger] changes(ps, before, after)[k1]).path != (#[trigger] changes(
                ps,
                before,
                after,
            )[k2]).path,
    decreases ps.len(),
{
    if ps.len() > 0 {
        let t = ps.drop_last();
        let p = ps.last();
        lemma_changes(t, before, after);
        let prev = changes(t, before, after);
        let bi = last_with_path(before, p);
        let ai = last_with_path(after, p);
        let tail = if bi >= 0 && ai >= 0 { change_of(before[bi], after[ai], p) } else { Seq::<FileDiffView>::empty() };
        let all = changes(ps, before, after);
        assert(all == prev + tail);
        assert(tail.len() > 0 ==> tail.len() == 1 && tail[0].path == p && differs_at(before, after, p));
        assert forall|k: int| 0 <= k < all.len() implies {
            let c = #[trigger] all[k];
            &&& ps.contains(c.path)
            &&& differs_at(before, after, c.path)
            &&& seq![c] == change_of(before[last_with_path(before, c.path)], after[last_with_path(after, c.path)], c.path)
        } by {
            if k < prev.len() {
                assert(all[k] == prev[k]);
                let q = prev[k].path;
                assert(t.contains(q));
                let m = choose|m: int| 0 <= m < t.len() && t[m] == q;
                assert(ps[m] == q);
            } else {
                assert(all[k] == tail[0]);
                assert(ps[ps.len() - 1] == p);
                assert(tail =~= seq![tail[0]]);
            }
        }
        assert forall|q: Seq<char>| ps.contains(q) && #[trigger] differs_at(before, after, q) implies exists|k: int|
            0 <= k < all.len() && (#[trigger] all[k]).path == q by {
            if q == p {
                assert(all[prev.len() as int] == tail[0]);
            } else {
                let m = choose|m: int| 0 <= m < ps.len() && ps[m] == q;
                assert(t[m] == q);
                assert(t.contains(q));
                let k = choose|k: int| 0 <= k < prev.len() && (#[trigger] prev[k]).path == q;
                assert(all[k] == prev[k]);
            }
        }
        if ps.no_duplicates() {
            assert(t.no_duplicates()) by {
                assert forall|a: int, b: int| 0 <= a < t.len() && 0 <= b < t.len() && a != b implies t[a] != t[b] by {
                    assert(t[a] == ps[a] && t[b] == ps[b]);
                }
            }
            assert forall|k1: int, k2: int|
                0 <= k1 < all.len() && 0 <= k2 < all.len() && k1 != k2 implies (#[trigger] all[k1]).path != (#[trigger] all[k2]).path by {
                if k1 < prev.len() && k2 < prev.len() {
                    assert(all[k1] == prev[k1] && all[k2] == prev[k2]);
                } else if k1 < prev.len() {
                    assert(all[k1] == prev[k1]);
                    assert(all[k2] == tail[0]);
                    let q = prev[k1].path;
                    assert(t.contains(q));
                    if q == p {
                        let m = choose|m: int| 0 <= m < t.len() && t[m] == q;
                        assert(ps[m] == ps[ps.len() - 1]);
                    }
                } else if k2 < prev.len() {
                    assert(all[k2] == prev[k2]);
                    assert(all[k1] == tail[0]);
                    let q = prev[k2].path;
                    assert(t.contains(q));
                    if q == p {
                        let m = choose|m: int| 0 <= m < t.len() && t[m] == q;
                        assert(ps[m] == ps[ps.len() - 1]);
                    }
                }
            }
        }
    }
}

/// Each changed file is named once, is in both runs, and carries the
/// statuses of both runs, the findings the later run added and those it
/// dropped, in their order; every path in both runs whose files differ
/// is among them. (A path that occurs twice in a run stands for its last
/// file; where paths are distinct, that is the one file with it.)
pub proof fn law_changed_files_carry_their_changes(before: Seq<FileReport>, after: Seq<FileReport>)
    ensures
        ({
            let c = diff_spec(before, after).2;
            &&& forall|k1: int, k2: int|
                0 <= k1 < c.len() && 0 <= k2 < c.len() && k1 != k2 ==> (#[trigger] c[k1]).path != (#[trigger] c[k2]).path
            &&& forall|k: int|
                0 <= k < c.len() ==> {
                    let d = #[trigger] c[k];
                    let b = before[last_with_path(before, d.path)];
                    let a = after[last_with_path(after, d.path)];
                    &&& report_paths(before).contains(d.path)
                    &&& report_paths(after).contains(d.path)
                    &&& (b.status != a.status || b.findings.deep_view() != a.findings.deep_view())
                    &&& d.before_status == b.status
                    &&& d.after_status == a.status
                    &&& d.added_findings == delta(b.findings.deep_view(), a.findings.deep_view())
                    &&& d.removed_findings == delta(a.findings.deep_view(), b.findings.deep_view())
                }
            &&& forall|p: Seq<char>|
                #[trigger] differs_at(before, after, p) ==> exists|k: int| 0 <= k < c.len() && (#[trigger] c[k]).path == p
        }),
{
    let ap = report_paths(after);
    let d = dedup(ap);
    crate::seqs::lemma_dedup_unique(ap);
    lemma_changes(d, before, after);
    let c = changes(d, before, after);
    assert forall|k: int| 0 <= k < c.len() implies {
        let dd = #[trigger] c[k];
        let b = before[last_with_path(before, dd.path)];
        let a = after[last_with_path(after, dd.path)];
        &&& report_paths(before).contains(dd.path)
        &&& report_paths(after).contains(dd.path)
        &&& (b.status != a.status || b.findings.deep_view() != a.findings.deep_view())
        &&& dd.before_status == b.status
        &&& dd.after_status == a.status
        &&& dd.added_findings == delta(b.findings.deep_view(), a.findings.deep_view())
        &&& dd.removed_findings == delta(a.findings.deep_view(), b.findings.deep_view())
    } by {
        let dd = c[k];
        lemma_last_with_path_range(before, dd.path);
        lemma_last_with_path_range(after, dd.path);
        let b = before[last_with_path(before, dd.path)];
        let a = after[last_with_path(after, dd.path)];
        assert(seq![dd] == change_of(b, a, dd.path));
        assert(change_of(b, a, dd.path)[0] == dd);
    }
    assert forall|p: Seq<char>| #[trigger] differs_at(before, after, p) implies exists|k: int| 0 <= k < c.len() && (#[trigger] c[k]).path == p by {
        lemma_last_with_path_range(after, p);
        lemma_dedup_contains(ap, p);
    }
}

proof fn lemma_change_entry(before: Seq<FileReport>, after: Seq<FileReport>, k: int)
    requires
        0 <= k < diff_spec(before, after).2.len(),
    ensures
        ({
            let d = diff_spec(before, after).2[k];
            let b = before[last_with_path(before, d.path)];
            let a = after[last_with_path(after, d.path)];
            &&& last_with_path(before, d.path) >= 0
            &&& last_with_path(after, d.path) >= 0
            &&& (b.status != a.status || b.findings.deep_view() != a.findings.deep_view())
            &&& d.before_status == b.status
            &&& d.after_status == a.status
            &&& d.added_findings == delta(b.findings.deep_view(), a.findings.deep_view())
            &&& d.removed_findings == delta(a.findings.deep_view(), b.findings.deep_view())
        }),
{
    law_changed_files_carry_their_changes(before, after);
    let d = diff_spec(before, after).2[k];
    lemma_last_with_path_range(before, d.path);
    lemma_last_with_path_range(after, d.path);
}

proof fn lemma_change_present(before: Seq<FileReport>, after: Seq<FileReport>, p: Seq<char>) -> (k: int)
    requires
        differs_at(before, after, p),
    ensures
        0 <= k < diff_spec(before, after).2.len(),
        diff_spec(before, after).2[k].path == p,
{
    law_changed_files_carry_their_changes(before, after);
    let c = diff_spec(before, after).2;
    choose|k: int| 0 <= k < c.len() && (#[trigger] c[k]).path == p
}

/// Comparing the runs the other way round swaps the files added and
/// removed, and gives a change for the same paths with the statuses and
/// the added and dropped findings swapped.
pub proof fn law_diff_swaps_with_the_runs(before: Seq<FileReport>, after: Seq<FileReport>)
    ensures
        diff_spec(after, before).0 == diff_spec(before, after).1,
        diff_spec(after, before).1 == diff_spec(before, after).0,
        forall|k: int|
            0 <= k < diff_spec(before, after).2.len() ==> exists|j: int|
                0 <= j < diff_spec(after, before).2.len() && {
                    let x = #[trigger] diff_spec(before, after).2[k];
                    let y = #[trigger] diff_spec(after, before).2[j];
                    &&& y.path == x.path
                    &&& y.before_status == x.after_status
                    &&& y.after_status == x.before_status
                    &&& y.added_findings == x.removed_findings
                    &&& y.removed_findings == x.added_findings
                },
        forall|j: int|
            0 <= j < diff_spec(after, before).2.len() ==> exists|k: int|
                0 <= k < diff_spec(before, after).2.len() && (#[trigger] diff_spec(before, after).2[k]).path
                    == (#[trigger] diff_spec(after, before).2[j]).path,
{
    let c1 = diff_spec(before, after).2;
    let c2 = diff_spec(after, before).2;
    assert forall|k: int| 0 <= k < c1.len() implies exists|j: int|
        0 <= j < c2.len() && {
            let x = #[trigger] c1[k];
            let y = #[trigger] c2[j];
            &&& y.path == x.path
            &&& y.before_status == x.after_status
            &&& y.after_status == x.before_status
            &&& y.added_findings == x.removed_findings
            &&& y.removed_findings == x.added_findings
        } by {
        lemma_change_entry(before, after, k);
        let p = c1[k].path;
        assert(differs_at(after, before, p));
        let j = lemma_change_present(after, before, p);
        lemma_change_entry(after, before, j);
        assert(c2[j].path == p);
    }
    assert forall|j: int| 0 <= j < c2.len() implies exists|k: int|
        0 <= k < c1.len() && (#[trigger] c1[k]).path == (#[trigger] c2[j]).path by {
        lemma_change_entry(after, before, j);
        let p = c2[j].path;
        assert(differs_at(before, after, p));
        let k = lemma_change_present(before, after, p);
        assert(c1[k].path == p);
    }
}

/// The findings a run added are exactly those of the later list that the
/// earlier one lacks, in their order: the later list with every finding of
/// the earlier list left out. So nothing found in both runs is listed.
pub proof fn law_delta_keeps_only_new_findings(left: Seq<FindingView>, right: Seq<FindingView>)
    ensures
        delta(left, right) == right.filter(|x: FindingView| !left.contains(x)),
        forall|x: FindingView| #[trigger] delta(left, right).contains(x) <==> right.contains(x) && !left.contains(x),
    decreases right.len(),
{
    reveal(Seq::filter);
    let pred = |x: FindingView| !left.contains(x);
    if right.len() > 0 {
        law_delta_keeps_only_new_findings(left, right.drop_last());
        assert(right.filter(pred) == right.drop_last().filter(pred) + if pred(right.last()) {
            seq![right.last()]
        } else {
            Seq::<FindingView>::empty()
        }) by {
            assert(right.filter(pred) =~= if pred(right.last()) {
                right.drop_last().filter(pred).push(right.last())
            } else {
                right.drop_last().filter(pred)
            });
        }
        assert(delta(left, right) =~= right.filter(pred));
    } else {
        assert(right.filter(pred) =~= Seq::<FindingView>::empty());
    }
    assert forall|x: FindingView| #[trigger] delta(left, right).contains(x) <==> right.contains(x) && !left.contains(x) by {
        if right.len() > 0 {
            let t = right.drop_last();
            let d = delta(left, t);
            let tail = if left.contains(right.last()) { Seq::<FindingView>::empty() } else { seq![right.last()] };
            assert(delta(left, right) == d + tail);
            assert(d.contains(x) <==> t.contains(x) && !left.contains(x));
            if delta(left, right).contains(x) {
                let k = choose|k: int| 0 <= k < (d + tail).len() && (d + tail)[k] == x;
                if k < d.len() {
                    assert(d[k] == x);
                    let m = choose|m: int| 0 <= m < t.len() && t[m] == x;
                    assert(right[m] == x);
                } else {
                    assert(right[right.len() - 1] == x);
                }
            }
            if right.contains(x) && !left.contains(x) {
                let m = choose|m: int| 0 <= m < right.len() && right[m] == x;
                if m < t.len() {
                    assert(t[m] == x);
                    assert(d.contains(x));
                    let k = choose|k: int| 0 <= k < d.len() && d[k] == x;
                    assert((d + tail)[k] == x);
                } else {
                    assert((d + tail)[d.len() as int] == x);
                }
            }
        }
    }
}

} // verus!
