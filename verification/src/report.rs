use vstd::prelude::*;

use crate::suggestions::{suggestions_for_findings, suggestions_spec, FixSuggestion};
use crate::validate::{has_severity, status_from_findings, status_of, any_with_severity, Finding, Severity, Status};

verus! {

/// Whether a person has to look at a file.
#[derive(Debug, Clone, Copy, PartialEq, Eq, Structural)]
pub enum ReviewState {
    Pass,
    Warn,
    NeedsHumanAttention,
}

/// The outcome of checking one file.
#[derive(Debug, Clone, PartialEq, Eq)]
pub struct FileReport {
    pub path: String,
    pub status: Status,
    pub review_state: ReviewState,
    pub findings: Vec<Finding>,
    pub suggestions: Vec<FixSuggestion>,
    pub error: Option<String>,
    pub width: Option<u32>,
    pub height: Option<u32>,
    pub video_codec: Option<String>,
    pub file_size_bytes: Option<u64>,
}

/// Counts over the files of a batch.
#[derive(Debug, Clone, PartialEq, Eq)]
pub struct BatchSummary {
    pub total: usize,
    pub passed: usize,
    pub warned: usize,
    pub failed: usize,
    pub errors: usize,
    pub needs_human_attention: usize,
}

/// The outcome of checking a batch of files against one profile.
#[derive(Debug, Clone, PartialEq, Eq)]
pub struct BatchReport {
    pub profile: String,
    pub files: Vec<FileReport>,
    pub summary: BatchSummary,
    pub batch_findings: Vec<Finding>,
}

/// The outcome of checking the same files against several profiles.
#[derive(Debug, Clone, PartialEq, Eq)]
pub struct MultiProfileReport {
    pub profiles: Vec<String>,
    pub reports: Vec<BatchReport>,
}

/// The more severe of two statuses (`Fail` over `Warn` over `Pass`).
pub open spec fn worst(a: Status, b: Status) -> Status {
    if a == Status::Fail || b == Status::Fail {
        Status::Fail
    } else if a == Status::Warn || b == Status::Warn {
        Status::Warn
    } else {
        Status::Pass
    }
}

/// The process exit code for a status: 0 pass, 2 warnings only, 1 failure.
pub open spec fn exit_code_of(s: Status) -> i32 {
    match s {
        Status::Pass => 0,
        Status::Warn => 2,
        Status::Fail => 1,
    }
}

/// The review state that a file status calls for.
pub open spec fn review_state_of(s: Status) -> ReviewState {
    match s {
        Status::Pass => ReviewState::Pass,
        Status::Warn => ReviewState::Warn,
        Status::Fail => ReviewState::NeedsHumanAttention,
    }
}

/// The number of files with status `s`.
pub open spec fn count_status(files: Seq<FileReport>, s: Status) -> nat
    decreases files.len(),
{
    if files.len() == 0 {
        0
    } else {
        count_status(files.drop_last(), s) + if files.last().status == s { 1nat } else { 0nat }
    }
}

/// The number of files that carry an error.
pub open spec fn count_errors(files: Seq<FileReport>) -> nat
    decreases files.len(),
{
    if files.len() == 0 {
        0
    } else {
        count_errors(files.drop_last()) + if files.last().error is Some { 1nat } else { 0nat }
    }
}

/// The number of files that need a person to look at them.
pub open spec fn count_attention(files: Seq<FileReport>) -> nat
    decreases files.len(),
{
    if files.len() == 0 {
        0
    } else {
        count_attention(files.drop_last()) + if files.last().review_state
            == ReviewState::NeedsHumanAttention {
            1nat
        } else {
            0nat
        }
    }
}

/// `summary` holds the counts of `files`.
pub open spec fn summarizes(summary: BatchSummary, files: Seq<FileReport>) -> bool {
    &&& summary.total == files.len()
    &&& summary.passed == count_status(files, Status::Pass)
    &&& summary.warned == count_status(files, Status::Warn)
    &&& summary.failed == count_status(files, Status::Fail)
    &&& summary.errors == count_errors(files)
    &&& summary.needs_human_attention == count_attention(files)
}

/// The overall status of a batch, from its summary and batch findings.
pub open spec fn batch_status(r: BatchReport) -> Status {
    if r.summary.errors > 0 || r.summary.failed > 0 || has_severity(
        r.batch_findings.deep_view(),
        Severity::Fail,
    ) {
        Status::Fail
    } else if r.summary.warned > 0 || has_severity(r.batch_findings.deep_view(), Severity::Warn) {
        Status::Warn
    } else {
        Status::Pass
    }
}

/// The worst status over the reports of a multi-profile run.
pub open spec fn multi_status(reports: Seq<BatchReport>) -> Status
    decreases reports.len(),
{
    if reports.len() == 0 {
        Status::Pass
    } else {
        worst(multi_status(reports.drop_last()), batch_status(reports.last()))
    }
}

/// The more severe of two statuses.
pub fn worst_status(current: Status, next: Status) -> (s: Status)
    ensures
        s == worst(current, next),
{
    match (current, next) {
        (Status::Fail, _) | (_, Status::Fail) => Status::Fail,
        (Status::Warn, _) | (_, Status::Warn) => Status::Warn,
        _ => Status::Pass,
    }
}

/// The exit code for a status.
pub fn exit_code_for(s: Status) -> (code: i32)
    ensures
        code == exit_code_of(s),
{
    match s {
        Status::Pass => 0,
        Status::Warn => 2,
        Status::Fail => 1,
    }
}

impl MultiProfileReport {
    /// A multi-profile report of the given parts.
    pub fn new(profiles: Vec<String>, reports: Vec<BatchReport>) -> (r: MultiProfileReport)
        ensures
            r.profiles == profiles,
            r.reports == reports,
    {
        MultiProfileReport { profiles, reports }
    }

    /// A multi-profile report that holds one batch report.
    pub fn from_single(report: BatchReport) -> (r: MultiProfileReport)
        ensures
            r.profiles@.len() == 1,
            r.profiles@[0]@ == report.profile@,
            r.reports@ == seq![report],
    {
        let profile = report.profile.clone();
        let mut profiles: Vec<String> = Vec::new();
        profiles.push(profile);
        let mut reports: Vec<BatchReport> = Vec::new();
        reports.push(report);
        MultiProfileReport { profiles, reports }
    }

    /// The worst status over all reports.
    pub fn overall_status(&self) -> (s: Status)
        ensures
            s == multi_status(self.reports@),
    {
        let mut status = Status::Pass;
        let n = self.reports.len();
        let mut i: usize = 0;
        while i < n
            invariant
                n == self.reports@.len(),
                i <= n,
                status == multi_status(self.reports@.take(i as int)),
            decreases n - i,
        {
            let next = self.reports[i].overall_status();
            assert(self.reports@.take(i + 1).drop_last() =~= self.reports@.take(i as int));
            status = worst_status(status, next);
            i = i + 1;
        }
        assert(self.reports@.take(n as int) =~= self.reports@);
        status
    }

    /// The process exit code for the whole run.
    pub fn exit_code(&self) -> (code: i32)
        ensures
            code == exit_code_of(multi_status(self.reports@)),
    {
        exit_code_for(self.overall_status())
    }
}

impl FileReport {
    /// The report of a file that could not be checked.
    pub fn error(path: String, error: String, file_size_bytes: Option<u64>) -> (r: FileReport)
        ensures
            r.path == path,
            r.status == Status::Fail,
            r.review_state == ReviewState::NeedsHumanAttention,
            r.findings@.len() == 0,
            r.suggestions@.len() == 0,
            r.error == Some(error),
            r.width is None,
            r.height is None,
            r.video_codec is None,
            r.file_size_bytes == file_size_bytes,
    {
        FileReport {
            path,
            status: Status::Fail,
            review_state: ReviewState::NeedsHumanAttention,
            findings: Vec::new(),
            suggestions: Vec::new(),
            error: Some(error),
            width: None,
            height: None,
            video_codec: None,
            file_size_bytes,
        }
    }
}

proof fn lemma_counts_step(files: Seq<FileReport>, i: int)
    requires
        0 <= i < files.len(),
    ensures
        files.take(i + 1).drop_last() == files.take(i),
        files.take(i + 1).last() == files[i],
{
    assert(files.take(i + 1).drop_last() =~= files.take(i));
}

impl BatchReport {
    /// A batch report of `files` with no batch-level findings.
    pub fn from_files(profile: String, files: Vec<FileReport>) -> (r: BatchReport)
        ensures
            r.profile == profile,
            r.files == files,
            summarizes(r.summary, files@),
            r.batch_findings@.len() == 0,
    {
        Self::from_files_with_batch_findings(profile, files, Vec::new())
    }

    /// A batch report of `files` and batch-level findings, with the counts
    /// of the files in its summary.
    pub fn from_files_with_batch_findings(
        profile: String,
        files: Vec<FileReport>,
        batch_findings: Vec<Finding>,
    ) -> (r: BatchReport)
        ensures
            r.profile == profile,
            r.files == files,
            summarizes(r.summary, files@),
            r.batch_findings == batch_findings,
    {
        let mut passed: usize = 0;
        let mut warned: usize = 0;
        let mut failed: usize = 0;
        let mut errors: usize = 0;
        let mut needs_human_attention: usize = 0;
        let n = files.len();
        let mut i: usize = 0;
        while i < n
            invariant
                n == files@.len(),
                i <= n,
                passed == count_status(files@.take(i as int), Status::Pass),
                warned == count_status(files@.take(i as int), Status::Warn),
                failed == count_status(files@.take(i as int), Status::Fail),
                errors == count_errors(files@.take(i as int)),
                needs_human_attention == count_attention(files@.take(i as int)),
                passed + warned + failed == i,
                errors <= i,
                needs_human_attention <= i,
            decreases n - i,
        {
            proof {
                lemma_counts_step(files@, i as int);
            }
            let file = &files[i];
            if file.error.is_some() {
                errors += 1;
            }
            match file.status {
                Status::Pass => passed += 1,
                Status::Warn => warned += 1,
                Status::Fail => failed += 1,
            }
            if file.review_state == ReviewState::NeedsHumanAttention {
                needs_human_attention += 1;
            }
            i = i + 1;
        }
        assert(files@.take(n as int) =~= files@);
        BatchReport {
            profile,
            summary: BatchSummary {
                total: n,
                passed,
                warned,
                failed,
                errors,
                needs_human_attention,
            },
            files,
            batch_findings,
        }
    }

    /// The overall status of the batch: `Fail` on any error, failed file or
    /// failing batch finding; else `Warn` on any warned file or warning batch
    /// finding; else `Pass`.
    pub fn overall_status(&self) -> (s: Status)
        ensures
            s == batch_status(*self),
    {
        if self.summary.errors > 0 || self.summary.failed > 0 || any_with_severity(
            self.batch_findings.as_slice(),
            Severity::Fail,
        ) {
            Status::Fail
        } else if self.summary.warned > 0 || any_with_severity(
            self.batch_findings.as_slice(),
            Severity::Warn,
        ) {
            Status::Warn
        } else {
            Status::Pass
        }
    }

    /// The process exit code for the batch.
    pub fn exit_code(&self) -> (code: i32)
        ensures
            code == exit_code_of(batch_status(*self)),
    {
        exit_code_for(self.overall_status())
    }
}

/// The report of a checked file with the given findings: the status they
/// imply, the review state that status calls for, and their suggestions.
pub fn file_report_from_findings(path: String, findings: Vec<Finding>, error: Option<String>) -> (r:
    FileReport)
    ensures
        r.path == path,
        r.status == status_of(findings.deep_view()),
        r.review_state == review_state_of(status_of(findings.deep_view())),
        r.findings == findings,
        r.suggestions.deep_view() == suggestions_spec(findings.deep_view()),
        r.error == error,
        r.width is None,
        r.height is None,
        r.video_codec is None,
        r.file_size_bytes is None,
{
    let status = status_from_findings(findings.as_slice());
    let review_state = review_state_from(status);
    let suggestions = suggestions_for_findings(findings.as_slice());
    FileReport {
        path,
        status,
        review_state,
        findings,
        suggestions,
        error,
        width: None,
        height: None,
        video_codec: None,
        file_size_bytes: None,
    }
}

/// The review state that a status calls for.
pub fn review_state_from(status: Status) -> (r: ReviewState)
    ensures
        r == review_state_of(status),
{
    match status {
        Status::Pass => ReviewState::Pass,
        Status::Warn => ReviewState::Warn,
        Status::Fail => ReviewState::NeedsHumanAttention,
    }
}

// ---------------------------------------------------------------------------
// Laws of reports and exit codes
// ---------------------------------------------------------------------------

/// How severe a status is: `Pass` < `Warn` < `Fail`.
pub open spec fn severity_rank(s: Status) -> int {
    match s {
        Status::Pass => 0,
        Status::Warn => 1,
        Status::Fail => 2,
    }
}

proof fn lemma_count_status_pos(files: Seq<FileReport>, s: Status, i: int)
    requires
        0 <= i < files.len(),
        files[i].status == s,
    ensures
        count_status(files, s) > 0,
    decreases files.len(),
{
    if i < files.len() - 1 {
        lemma_count_status_pos(files.drop_last(), s, i);
    }
}

proof fn lemma_count_errors_pos(files: Seq<FileReport>, i: int)
    requires
        0 <= i < files.len(),
        files[i].error is Some,
    ensures
        count_errors(files) > 0,
    decreases files.len(),
{
    if i < files.len() - 1 {
        lemma_count_errors_pos(files.drop_last(), i);
    }
}

proof fn lemma_count_status_zero(files: Seq<FileReport>, s: Status)
    requires
        forall|i: int| 0 <= i < files.len() ==> #[trigger] files[i].status != s,
    ensures
        count_status(files, s) == 0,
    decreases files.len(),
{
    if files.len() > 0 {
        lemma_count_status_zero(files.drop_last(), s);
    }
}

proof fn lemma_count_errors_zero(files: Seq<FileReport>)
    requires
        forall|i: int| 0 <= i < files.len() ==> #[trigger] files[i].error is None,
    ensures
        count_errors(files) == 0,
    decreases files.len(),
{
    if files.len() > 0 {
        lemma_count_errors_zero(files.drop_last());
    }
}

/// Every file of a batch is counted once among passed, warned and failed.
pub proof fn law_summary_partitions_files(files: Seq<FileReport>)
    ensures
        count_status(files, Status::Pass) + count_status(files, Status::Warn) + count_status(files, Status::Fail)
            == files.len(),
    decreases files.len(),
{
    if files.len() > 0 {
        law_summary_partitions_files(files.drop_last());
    }
}

/// A batch with a failed file, or with a file that could not be checked,
/// fails and exits with code 1.
pub proof fn law_failed_file_fails_batch(r: BatchReport, i: int)
    requires
        summarizes(r.summary, r.files@),
        0 <= i < r.files@.len(),
        r.files@[i].status == Status::Fail || r.files@[i].error is Some,
    ensures
        batch_status(r) == Status::Fail,
        exit_code_of(batch_status(r)) == 1,
{
    if r.files@[i].status == Status::Fail {
        lemma_count_status_pos(r.files@, Status::Fail, i);
    } else {
        lemma_count_errors_pos(r.files@, i);
    }
}

/// A batch whose files all passed, without errors or batch findings,
/// passes and exits with code 0.
pub proof fn law_clean_batch_passes(r: BatchReport)
    requires
        summarizes(r.summary, r.files@),
        forall|i: int| 0 <= i < r.files@.len() ==> (#[trigger] r.files@[i]).status == Status::Pass && r.files@[i].error is None,
        r.batch_findings@.len() == 0,
    ensures
        batch_status(r) == Status::Pass,
        exit_code_of(batch_status(r)) == 0,
{
    lemma_count_status_zero(r.files@, Status::Fail);
    lemma_count_status_zero(r.files@, Status::Warn);
    lemma_count_errors_zero(r.files@);
}

/// A batch with warnings and nothing worse exits with code 2.
pub proof fn law_warnings_only_exit_two(r: BatchReport, i: int)
    requires
        summarizes(r.summary, r.files@),
        forall|k: int| 0 <= k < r.files@.len() ==> (#[trigger] r.files@[k]).status != Status::Fail && r.files@[k].error is None,
        !has_severity(r.batch_findings.deep_view(), Severity::Fail),
        0 <= i < r.files@.len(),
        r.files@[i].status == Status::Warn,
    ensures
        batch_status(r) == Status::Warn,
        exit_code_of(batch_status(r)) == 2,
{
    lemma_count_status_zero(r.files@, Status::Fail);
    lemma_count_errors_zero(r.files@);
    lemma_count_status_pos(r.files@, Status::Warn, i);
}

/// `worst` picks the more severe status: it is commutative, associative,
/// idempotent, and `Pass` changes nothing.
pub proof fn law_worst_is_max(a: Status, b: Status, c: Status)
    ensures
        worst(a, b) == worst(b, a),
        worst(worst(a, b), c) == worst(a, worst(b, c)),
        worst(a, a) == a,
        worst(a, Status::Pass) == a,
        severity_rank(worst(a, b)) == if severity_rank(a) >= severity_rank(b) {
            severity_rank(a)
        } else {
            severity_rank(b)
        },
{
}

/// The status of a multi-profile run is the worst of its reports: no report
/// is more severe, and it is the status of one of them (`Pass` when there
/// are none).
pub proof fn law_multi_status_is_worst(reports: Seq<BatchReport>)
    ensures
        forall|i: int| 0 <= i < reports.len() ==> severity_rank(#[trigger] batch_status(reports[i])) <= severity_rank(
            multi_status(reports),
        ),
        reports.len() == 0 ==> multi_status(reports) == Status::Pass,
        reports.len() > 0 ==> exists|i: int| 0 <= i < reports.len() && #[trigger] batch_status(reports[i]) == multi_status(reports),
    decreases reports.len(),
{
    if reports.len() > 0 {
        let t = reports.drop_last();
        law_multi_status_is_worst(t);
        assert forall|i: int| 0 <= i < reports.len() implies severity_rank(#[trigger] batch_status(reports[i])) <= severity_rank(
            multi_status(reports),
        ) by {
            if i < reports.len() - 1 {
                assert(reports[i] == t[i]);
            }
        }
        let last = reports.len() - 1;
        if multi_status(reports) == batch_status(reports[last]) {
        } else {
            let j = choose|j: int| 0 <= j < t.len() && #[trigger] batch_status(t[j]) == multi_status(t);
            assert(reports[j] == t[j]);
            assert(batch_status(reports[j]) == multi_status(reports));
        }
    }
}

/// A multi-profile run of one report has that report's status and exit code.
pub proof fn law_single_report_keeps_status(r: BatchReport)
    ensures
        multi_status(seq![r]) == batch_status(r),
        exit_code_of(multi_status(seq![r])) == exit_code_of(batch_status(r)),
{
    let s = seq![r];
    assert(s.drop_last() =~= Seq::<BatchReport>::empty());
    assert(multi_status(s.drop_last()) == Status::Pass);
    assert(s.last() == r);
    assert(multi_status(s) == worst(Status::Pass, batch_status(r)));
}

/// The status of a multi-profile run does not depend on the order of its
/// reports: runs with the same reports, in any order, have the same
/// status.
pub proof fn law_multi_status_ignores_order(a: Seq<BatchReport>, b: Seq<BatchReport>)
    requires
        a.to_multiset() == b.to_multiset(),
    ensures
        multi_status(a) == multi_status(b),
{
    broadcast use vstd::seq_lib::group_seq_properties;

    law_multi_status_is_worst(a);
    law_multi_status_is_worst(b);
    assert(a.len() == a.to_multiset().len() && b.len() == b.to_multiset().len());
    if a.len() > 0 {
        let i = choose|i: int| 0 <= i < a.len() && #[trigger] batch_status(a[i]) == multi_status(a);
        let j = choose|j: int| 0 <= j < b.len() && #[trigger] batch_status(b[j]) == multi_status(b);
        assert(a.contains(a[i]));
        assert(b.to_multiset().count(a[i]) > 0);
        assert(b.contains(a[i]));
        let k = choose|k: int| 0 <= k < b.len() && b[k] == a[i];
        assert(severity_rank(batch_status(b[k])) <= severity_rank(multi_status(b)));
        assert(b.contains(b[j]));
        assert(a.to_multiset().count(b[j]) > 0);
        assert(a.contains(b[j]));
        let l = choose|l: int| 0 <= l < a.len() && a[l] == b[j];
        assert(severity_rank(batch_status(a[l])) <= severity_rank(multi_status(a)));
    }
}

} // verus!
