use vstd::prelude::*;

use crate::diff::{FileDiff, FileDiffView, ReportDiff};
use crate::html_report::{push_review_name, push_status_name, review_name, status_name};
use crate::report::{batch_status, BatchReport, FileReport};
use crate::seqs::{concat, lemma_concat_push, string_views};
use crate::suggestions::{suggestion_for_code, suggestion_text, FixSuggestion, FixSuggestionView};
use crate::text::{dec, push_decimal, push_str};
use crate::validate::{Finding, FindingView, Severity};

verus! {

/// The name of a severity.
pub open spec fn severity_name(s: Severity) -> Seq<char> {
    match s {
        Severity::Warn => "Warn"@,
        Severity::Fail => "Fail"@,
    }
}

fn push_severity_name(out: &mut String, s: Severity)
    ensures
        final(out)@ == old(out)@ + severity_name(s),
{
    match s {
        Severity::Warn => push_str(out, "Warn"),
        Severity::Fail => push_str(out, "Fail"),
    }
}

/// The line of a finding of a file.
pub open spec fn finding_line(f: FindingView) -> Seq<char> {
    "  ["@ + severity_name(f.severity) + "] "@ + f.code + ": "@ + f.message + "\n"@
}

/// The line of a suggestion of a file.
pub open spec fn suggestion_line(s: FixSuggestionView) -> Seq<char> {
    "    - "@ + s.code + ": "@ + s.suggestion + "\n"@
}

/// The line of a batch finding.
pub open spec fn batch_finding_line(f: FindingView) -> Seq<char> {
    "  ["@ + severity_name(f.severity) + "] "@ + f.code + " \u{2014} "@ + f.message + "\n"@
}

/// The findings part of a file's status lines.
pub open spec fn findings_part(findings: Seq<FindingView>) -> Seq<char> {
    if findings.len() == 0 {
        "  no findings\n"@
    } else {
        concat(findings.map_values(|x: FindingView| finding_line(x)))
    }
}

/// The suggestions part of a file's status lines.
pub open spec fn suggestions_part(suggestions: Seq<FixSuggestionView>) -> Seq<char> {
    if suggestions.len() == 0 {
        Seq::empty()
    } else {
        "  suggestions:\n"@ + concat(suggestions.map_values(|x: FixSuggestionView| suggestion_line(x)))
    }
}

/// The status lines of a file: status, review state, findings (or that
/// there are none) and suggestions (when there are some).
pub open spec fn file_status_text(f: FileReport) -> Seq<char> {
    "  status: "@ + status_name(f.status) + "\n  review: "@ + review_name(f.review_state) + "\n"@ + findings_part(
        f.findings.deep_view(),
    ) + suggestions_part(f.suggestions.deep_view())
}

/// The lines of one file of a batch report.
pub open spec fn file_block(f: FileReport) -> Seq<char> {
    "\n"@ + f.path@ + "\n"@ + (match f.error {
        Some(e) => "  error: "@ + e@ + "\n"@,
        None => Seq::empty(),
    }) + file_status_text(f)
}

/// The first line of a batch report.
pub open spec fn batch_header(r: BatchReport) -> Seq<char> {
    "Batch report for profile '"@ + r.profile@ + "' ("@ + dec(r.summary.total as nat) + " file(s))\n"@
}

/// The summary lines of a batch report.
pub open spec fn summary_text(r: BatchReport) -> Seq<char> {
    "\nSummary:\n  passed: "@ + dec(r.summary.passed as nat) + "\n  warned: "@ + dec(r.summary.warned as nat)
        + "\n  failed: "@ + dec(r.summary.failed as nat) + "\n  errors: "@ + dec(r.summary.errors as nat)
        + "\n  needs human attention: "@ + dec(r.summary.needs_human_attention as nat) + "\n"@
}

/// The batch findings part of a batch report.
pub open spec fn batch_findings_part(findings: Seq<FindingView>) -> Seq<char> {
    if findings.len() == 0 {
        Seq::empty()
    } else {
        "\nBatch findings:\n"@ + concat(findings.map_values(|x: FindingView| batch_finding_line(x)))
    }
}

/// The text of a batch report.
pub open spec fn batch_report_text(r: BatchReport) -> Seq<char> {
    batch_header(r) + concat(r.files@.map_values(|f: FileReport| file_block(f))) + summary_text(r)
        + batch_findings_part(r.batch_findings.deep_view()) + "  overall: "@ + status_name(batch_status(r)) + "\n"@
}

fn push_finding_lines(out: &mut String, findings: &Vec<Finding>)
    ensures
        final(out)@ == old(out)@ + concat(findings.deep_view().map_values(|x: FindingView| finding_line(x))),
{
    let ghost o = out@;
    let n = findings.len();
    let mut i: usize = 0;
    while i < n
        invariant
            n == findings@.len(),
            i <= n,
            out@ == o + concat(findings.deep_view().take(i as int).map_values(|x: FindingView| finding_line(x))),
        decreases n - i,
    {
        let f = &findings[i];
        let ghost before = out@;
        push_str(out, "  [");
        push_severity_name(out, f.severity);
        push_str(out, "] ");
        push_str(out, f.code.as_str());
        push_str(out, ": ");
        push_str(out, f.message.as_str());
        push_str(out, "\n");
        proof {
            let dv = findings.deep_view();
            assert(dv[i as int] == f@);
            assert(dv.take(i + 1).map_values(|x: FindingView| finding_line(x)) =~= dv.take(i as int).map_values(
                |x: FindingView| finding_line(x),
            ).push(finding_line(f@)));
            assert(out@ =~= before + finding_line(f@));
            lemma_concat_push(dv.take(i as int).map_values(|x: FindingView| finding_line(x)), finding_line(f@));
        }
        i = i + 1;
    }
    assert(findings.deep_view().take(n as int) =~= findings.deep_view());
}

fn push_batch_finding_lines(out: &mut String, findings: &Vec<Finding>)
    ensures
        final(out)@ == old(out)@ + concat(findings.deep_view().map_values(|x: FindingView| batch_finding_line(x))),
{
    let ghost o = out@;
    let n = findings.len();
    let mut i: usize = 0;
    while i < n
        invariant
            n == findings@.len(),
            i <= n,
            out@ == o + concat(findings.deep_view().take(i as int).map_values(|x: FindingView| batch_finding_line(x))),
        decreases n - i,
    {
        let f = &findings[i];
        let ghost before = out@;
        push_str(out, "  [");
        push_severity_name(out, f.severity);
        push_str(out, "] ");
        push_str(out, f.code.as_str());
        push_str(out, " \u{2014} ");
        push_str(out, f.message.as_str());
        push_str(out, "\n");
        proof {
            let dv = findings.deep_view();
            assert(dv[i as int] == f@);
            assert(dv.take(i + 1).map_values(|x: FindingView| batch_finding_line(x)) =~= dv.take(i as int).map_values(
                |x: FindingView| batch_finding_line(x),
            ).push(batch_finding_line(f@)));
            assert(out@ =~= before + batch_finding_line(f@));
            lemma_concat_push(dv.take(i as int).map_values(|x: FindingView| batch_finding_line(x)), batch_finding_line(f@));
        }
        i = i + 1;
    }
    assert(findings.deep_view().take(n as int) =~= findings.deep_view());
}

fn push_suggestion_lines(out: &mut String, suggestions: &Vec<FixSuggestion>)
    ensures
        final(out)@ == old(out)@ + concat(suggestions.deep_view().map_values(|x: FixSuggestionView| suggestion_line(x))),
{
    let ghost o = out@;
    let n = suggestions.len();
    let mut i: usize = 0;
    while i < n
        invariant
            n == suggestions@.len(),
            i <= n,
            out@ == o + concat(
                suggestions.deep_view().take(i as int).map_values(|x: FixSuggestionView| suggestion_line(x)),
            ),
        decreases n - i,
    {
        let s = &suggestions[i];
        let ghost before = out@;
        push_str(out, "    - ");
        push_str(out, s.code.as_str());
        push_str(out, ": ");
        push_str(out, s.suggestion.as_str());
        push_str(out, "\n");
        proof {
            let dv = suggestions.deep_view();
            assert(dv[i as int] == s@);
            assert(dv.take(i + 1).map_values(|x: FixSuggestionView| suggestion_line(x)) =~= dv.take(
                i as int,
            ).map_values(|x: FixSuggestionView| suggestion_line(x)).push(suggestion_line(s@)));
            assert(out@ =~= before + suggestion_line(s@));
            lemma_concat_push(dv.take(i as int).map_values(|x: FixSuggestionView| suggestion_line(x)), suggestion_line(s@));
            assert(out@ =~= o + concat(dv.take(i + 1).map_values(|x: FixSuggestionView| suggestion_line(x))));
        }
        i = i + 1;
    }
    assert(suggestions.deep_view().take(n as int) =~= suggestions.deep_view());
}

fn push_file_status(out: &mut String, f: &FileReport)
    ensures
        final(out)@ == old(out)@ + file_status_text(*f),
{
    let ghost o = out@;
    push_str(out, "  status: ");
    push_status_name(out, f.status);
    push_str(out, "\n  review: ");
    push_review_name(out, f.review_state);
    push_str(out, "\n");
    let ghost mid = out@;
    if f.findings.len() == 0 {
        push_str(out, "  no findings\n");
    } else {
        push_finding_lines(out, &f.findings);
    }
    assert(out@ =~= mid + findings_part(f.findings.deep_view()));
    let ghost mid2 = out@;
    if f.suggestions.len() > 0 {
        push_str(out, "  suggestions:\n");
        push_suggestion_lines(out, &f.suggestions);
        assert(out@ =~= mid2 + suggestions_part(f.suggestions.deep_view()));
    } else {
        assert(out@ =~= mid2 + suggestions_part(f.suggestions.deep_view()));
    }
    assert(out@ =~= o + file_status_text(*f));
}

fn push_file_block(out: &mut String, f: &FileReport)
    ensures
        final(out)@ == old(out)@ + file_block(*f),
{
    let ghost o = out@;
    push_str(out, "\n");
    push_str(out, f.path.as_str());
    push_str(out, "\n");
    match &f.error {
        Some(e) => {
            push_str(out, "  error: ");
            push_str(out, e.as_str());
            push_str(out, "\n");
        },
        None => {},
    }
    push_file_status(out, f);
    assert(out@ =~= o + file_block(*f));
}

fn push_summary(out: &mut String, r: &BatchReport)
    ensures
        final(out)@ == old(out)@ + summary_text(*r),
{
    let ghost o = out@;
    push_str(out, "\nSummary:\n  passed: ");
    push_decimal(out, r.summary.passed as u64);
    push_str(out, "\n  warned: ");
    push_decimal(out, r.summary.warned as u64);
    push_str(out, "\n  failed: ");
    push_decimal(out, r.summary.failed as u64);
    push_str(out, "\n  errors: ");
    push_decimal(out, r.summary.errors as u64);
    push_str(out, "\n  needs human attention: ");
    push_decimal(out, r.summary.needs_human_attention as u64);
    push_str(out, "\n");
    assert(out@ =~= o + summary_text(*r));
}

/// The text report of a batch, as the command line prints it.
pub fn render_batch_report(r: &BatchReport) -> (out: String)
    ensures
        out@ == batch_report_text(*r),
{
    let mut out = String::new();
    push_str(&mut out, "Batch report for profile '");
    push_str(&mut out, r.profile.as_str());
    push_str(&mut out, "' (");
    push_decimal(&mut out, r.summary.total as u64);
    push_str(&mut out, " file(s))\n");
    assert(out@ =~= batch_header(*r));
    let ghost head = out@;
    let n = r.files.len();
    let mut i: usize = 0;
    while i < n
        invariant
            n == r.files@.len(),
            i <= n,
            out@ == head + concat(r.files@.take(i as int).map_values(|f: FileReport| file_block(f))),
        decreases n - i,
    {
        let ghost before = out@;
        push_file_block(&mut out, &r.files[i]);
        proof {
            assert(r.files@.take(i + 1).map_values(|f: FileReport| file_block(f)) =~= r.files@.take(
                i as int,
            ).map_values(|f: FileReport| file_block(f)).push(file_block(r.files@[i as int])));
            lemma_concat_push(r.files@.take(i as int).map_values(|f: FileReport| file_block(f)), file_block(r.files@[i as int]));
            assert(out@ =~= head + concat(r.files@.take(i + 1).map_values(|f: FileReport| file_block(f))));
        }
        i = i + 1;
    }
    assert(r.files@.take(n as int) =~= r.files@);
    let ghost body = out@;
    push_summary(&mut out, r);
    let ghost after_summary = out@;
    if r.batch_findings.len() > 0 {
        push_str(&mut out, "\nBatch findings:\n");
        push_batch_finding_lines(&mut out, &r.batch_findings);
        assert(out@ =~= after_summary + batch_findings_part(r.batch_findings.deep_view()));
    } else {
        assert(out@ =~= after_summary + batch_findings_part(r.batch_findings.deep_view()));
    }
    let ghost after_findings = out@;
    push_str(&mut out, "  overall: ");
    push_status_name(&mut out, r.overall_status());
    push_str(&mut out, "\n");
    assert(out@ =~= batch_report_text(*r));
    out
}

/// The lines of an added finding in a diff: the finding, then its fix when
/// its code has one.
pub open spec fn added_finding_lines(f: FindingView) -> Seq<char> {
    "  + ["@ + f.code + "] "@ + f.message + "\n"@ + match suggestion_text(f.code) {
        Some(t) => "    fix: "@ + t + "\n"@,
        None => Seq::empty(),
    }
}

/// The line of a removed finding in a diff.
pub open spec fn removed_finding_line(f: FindingView) -> Seq<char> {
    "  - ["@ + f.code + "] "@ + f.message + "\n"@
}

/// The lines of one changed file in a diff.
pub open spec fn change_block(c: FileDiffView) -> Seq<char> {
    "\n"@ + c.path + ": "@ + status_name(c.before_status) + " -> "@ + status_name(c.after_status) + "\n"@ + concat(
        c.added_findings.map_values(|x: FindingView| added_finding_lines(x)),
    ) + concat(c.removed_findings.map_values(|x: FindingView| removed_finding_line(x)))
}

/// The lines listing added (`+`) or removed (`-`) files.
pub open spec fn path_lines(paths: Seq<Seq<char>>, plus: bool) -> Seq<char> {
    concat(paths.map_values(|p: Seq<char>| path_line(p, plus)))
}

/// The line of an added or removed file.
pub open spec fn path_line(p: Seq<char>, plus: bool) -> Seq<char> {
    if plus {
        "  + "@ + p + "\n"@
    } else {
        "  - "@ + p + "\n"@
    }
}

/// The added-files part of a diff.
pub open spec fn added_part(paths: Seq<Seq<char>>) -> Seq<char> {
    if paths.len() == 0 {
        Seq::empty()
    } else {
        "Added files:\n"@ + path_lines(paths, true)
    }
}

/// The removed-files part of a diff.
pub open spec fn removed_part(paths: Seq<Seq<char>>) -> Seq<char> {
    if paths.len() == 0 {
        Seq::empty()
    } else {
        "Removed files:\n"@ + path_lines(paths, false)
    }
}

/// The text of a diff between two runs.
pub open spec fn report_diff_text(d: ReportDiff) -> Seq<char> {
    "QC run diff\n"@ + added_part(string_views(d.added_files@)) + removed_part(string_views(d.removed_files@))
        + concat(d.changed_files.deep_view().map_values(|c: FileDiffView| change_block(c)))
}

fn push_path_lines(out: &mut String, paths: &Vec<String>, plus: bool)
    ensures
        final(out)@ == old(out)@ + path_lines(string_views(paths@), plus),
{
    let ghost o = out@;
    let n = paths.len();
    let mut i: usize = 0;
    while i < n
        invariant
            n == paths@.len(),
            i <= n,
            out@ == o + path_lines(string_views(paths@).take(i as int), plus),
        decreases n - i,
    {
        let ghost before = out@;
        if plus {
            push_str(out, "  + ");
        } else {
            push_str(out, "  - ");
        }
        push_str(out, paths[i].as_str());
        push_str(out, "\n");
        proof {
            let v = string_views(paths@);
            assert(v[i as int] == paths@[i as int]@);
            assert(v.take(i + 1).map_values(|p: Seq<char>| path_line(p, plus)) =~= v.take(i as int).map_values(
                |p: Seq<char>| path_line(p, plus),
            ).push(path_line(v[i as int], plus)));
            assert(out@ =~= before + path_line(v[i as int], plus));
            lemma_concat_push(v.take(i as int).map_values(|p: Seq<char>| path_line(p, plus)), path_line(v[i as int], plus));
            assert(out@ =~= o + path_lines(v.take(i + 1), plus));
        }
        i = i + 1;
    }
    assert(string_views(paths@).take(n as int) =~= string_views(paths@));
}

fn push_change_block(out: &mut String, c: &FileDiff)
    ensures
        final(out)@ == old(out)@ + change_block(c@),
{
    let ghost o = out@;
    push_str(out, "\n");
    push_str(out, c.path.as_str());
    push_str(out, ": ");
    push_status_name(out, c.before_status);
    push_str(out, " -> ");
    push_status_name(out, c.after_status);
    push_str(out, "\n");
    let ghost head = out@;
    let n = c.added_findings.len();
    let mut i: usize = 0;
    while i < n
        invariant
            n == c.added_findings@.len(),
            i <= n,
            out@ == head + concat(
                c.added_findings.deep_view().take(i as int).map_values(|x: FindingView| added_finding_lines(x)),
            ),
        decreases n - i,
    {
        let f = &c.added_findings[i];
        let ghost before = out@;
        push_str(out, "  + [");
        push_str(out, f.code.as_str());
        push_str(out, "] ");
        push_str(out, f.message.as_str());
        push_str(out, "\n");
        match suggestion_for_code(f.code.as_str()) {
            Some(t) => {
                push_str(out, "    fix: ");
                push_str(out, t.as_str());
                push_str(out, "\n");
            },
            None => {},
        }
        proof {
            let dv = c.added_findings.deep_view();
            assert(dv[i as int] == f@);
            assert(dv.take(i + 1).map_values(|x: FindingView| added_finding_lines(x)) =~= dv.take(
                i as int,
            ).map_values(|x: FindingView| added_finding_lines(x)).push(added_finding_lines(f@)));
            assert(out@ =~= before + added_finding_lines(f@));
            lemma_concat_push(dv.take(i as int).map_values(|x: FindingView| added_finding_lines(x)), added_finding_lines(f@));
            assert(out@ =~= head + concat(dv.take(i + 1).map_values(|x: FindingView| added_finding_lines(x))));
        }
        i = i + 1;
    }
    assert(c.added_findings.deep_view().take(n as int) =~= c.added_findings.deep_view());
    let ghost mid = out@;
    let m = c.removed_findings.len();
    let mut k: usize = 0;
    while k < m
        invariant
            m == c.removed_findings@.len(),
            k <= m,
            out@ == mid + concat(
                c.removed_findings.deep_view().take(k as int).map_values(|x: FindingView| removed_finding_line(x)),
            ),
        decreases m - k,
    {
        let f = &c.removed_findings[k];
        let ghost before = out@;
        push_str(out, "  - [");
        push_str(out, f.code.as_str());
        push_str(out, "] ");
        push_str(out, f.message.as_str());
        push_str(out, "\n");
        proof {
            let dv = c.removed_findings.deep_view();
            assert(dv[k as int] == f@);
            assert(dv.take(k + 1).map_values(|x: FindingView| removed_finding_line(x)) =~= dv.take(
                k as int,
            ).map_values(|x: FindingView| removed_finding_line(x)).push(removed_finding_line(f@)));
            assert(out@ =~= before + removed_finding_line(f@));
            lemma_concat_push(dv.take(k as int).map_values(|x: FindingView| removed_finding_line(x)), removed_finding_line(f@));
            assert(out@ =~= mid + concat(dv.take(k + 1).map_values(|x: FindingView| removed_finding_line(x))));
        }
        k = k + 1;
    }
    assert(c.removed_findings.deep_view().take(m as int) =~= c.removed_findings.deep_view());
    assert(out@ =~= o + change_block(c@));
}

/// The text of a diff between two runs, as the command line prints it.
pub fn render_report_diff(d: &ReportDiff) -> (out: String)
    ensures
        out@ == report_diff_text(*d),
{
    let mut out = String::new();
    push_str(&mut out, "QC run diff\n");
    let ghost a = out@;
    if d.added_files.len() > 0 {
        push_str(&mut out, "Added files:\n");
        push_path_lines(&mut out, &d.added_files, true);
    }
    assert(out@ =~= a + added_part(string_views(d.added_files@)));
    let ghost b = out@;
    if d.removed_files.len() > 0 {
        push_str(&mut out, "Removed files:\n");
        push_path_lines(&mut out, &d.removed_files, false);
    }
    assert(out@ =~= b + removed_part(string_views(d.removed_files@)));
    let ghost head = out@;
    let n = d.changed_files.len();
    let mut i: usize = 0;
    while i < n
        invariant
            n == d.changed_files@.len(),
            i <= n,
            out@ == head + concat(d.changed_files.deep_view().take(i as int).map_values(|c: FileDiffView| change_block(c))),
        decreases n - i,
    {
        let ghost before = out@;
        push_change_block(&mut out, &d.changed_files[i]);
        proof {
            let dv = d.changed_files.deep_view();
            assert(dv[i as int] == d.changed_files@[i as int]@);
            assert(dv.take(i + 1).map_values(|c: FileDiffView| change_block(c)) =~= dv.take(i as int).map_values(
                |c: FileDiffView| change_block(c),
            ).push(change_block(dv[i as int])));
            lemma_concat_push(dv.take(i as int).map_values(|c: FileDiffView| change_block(c)), change_block(dv[i as int]));
            assert(out@ =~= head + concat(dv.take(i + 1).map_values(|c: FileDiffView| change_block(c))));
        }
        i = i + 1;
    }
    assert(d.changed_files.deep_view().take(n as int) =~= d.changed_files.deep_view());
    assert(out@ =~= report_diff_text(*d));
    out
}

} // verus!
