use mediaqa::report::{file_report_from_findings, BatchReport, FileReport, MultiProfileReport, ReviewState};
use mediaqa::validate::{Finding, Severity, Status};

fn report_file(path: &str, status: Status, review: ReviewState, findings: Vec<Finding>, error: Option<String>) -> FileReport {
    FileReport {
        path: path.into(),
        status,
        review_state: review,
        findings,
        suggestions: vec![],
        error,
        width: None,
        height: None,
        video_codec: None,
        file_size_bytes: None,
    }
}

fn black() -> Finding {
    Finding { code: "BLACK_FRAMES".into(), severity: Severity::Warn, message: "black detected".into() }
}

#[test]
fn multi_profile_report_uses_worst_exit_code() {
    let pass = BatchReport::from_files(
        "youtube".into(),
        vec![report_file("a.mp4", Status::Pass, ReviewState::Pass, vec![], None)],
    );
    let warn = BatchReport::from_files(
        "shorts".into(),
        vec![report_file("a.mp4", Status::Warn, ReviewState::Warn, vec![black()], None)],
    );

    let multi = MultiProfileReport::new(vec!["youtube".into(), "shorts".into()], vec![pass, warn]);
    assert_eq!(multi.overall_status(), Status::Warn);
    assert_eq!(multi.exit_code(), 2);
}

#[test]
fn batch_summary_counts_statuses() {
    let files = vec![
        report_file("a.mp4", Status::Pass, ReviewState::Pass, vec![], None),
        report_file(
            "b.mp4",
            Status::Fail,
            ReviewState::NeedsHumanAttention,
            vec![Finding { code: "RESOLUTION_MISMATCH".into(), severity: Severity::Fail, message: "bad".into() }],
            None,
        ),
        report_file("c.mp4", Status::Fail, ReviewState::NeedsHumanAttention, vec![], Some("probe failed".into())),
    ];

    let report = BatchReport::from_files("youtube".into(), files);
    assert_eq!(report.summary.total, 3);
    assert_eq!(report.summary.passed, 1);
    assert_eq!(report.summary.failed, 2);
    assert_eq!(report.summary.errors, 1);
    assert_eq!(report.summary.needs_human_attention, 2);
    assert_eq!(report.overall_status(), Status::Fail);
    assert_eq!(report.exit_code(), 1);
}

#[test]
fn warn_only_batch_exits_with_code_2() {
    let files = vec![report_file("a.mp4", Status::Warn, ReviewState::Warn, vec![black()], None)];

    let report = BatchReport::from_files("youtube".into(), files);
    assert_eq!(report.overall_status(), Status::Warn);
    assert_eq!(report.exit_code(), 2);
}

#[test]
fn file_report_includes_suggestions() {
    let findings = vec![Finding { code: "AUDIO_REQUIRED".into(), severity: Severity::Fail, message: "missing".into() }];
    let report = file_report_from_findings("clip.mp4".into(), findings, None);
    assert_eq!(report.review_state, ReviewState::NeedsHumanAttention);
    assert!(!report.suggestions.is_empty());
}

#[test]
fn clean_batch_passes_with_exit_code_0() {
    let report = BatchReport::from_files(
        "youtube".into(),
        vec![
            report_file("a.mp4", Status::Pass, ReviewState::Pass, vec![], None),
            report_file("b.mp4", Status::Pass, ReviewState::Pass, vec![], None),
        ],
    );
    assert_eq!(report.summary.passed + report.summary.warned + report.summary.failed, report.summary.total);
    assert_eq!(report.overall_status(), Status::Pass);
    assert_eq!(report.exit_code(), 0);
}

#[test]
fn failing_batch_finding_fails_the_batch() {
    let report = BatchReport::from_files_with_batch_findings(
        "youtube".into(),
        vec![report_file("a.mp4", Status::Pass, ReviewState::Pass, vec![], None)],
        vec![Finding { code: "BATCH_X".into(), severity: Severity::Fail, message: "x".into() }],
    );
    assert_eq!(report.overall_status(), Status::Fail);
}

#[test]
fn single_report_keeps_its_exit_code() {
    let warn = BatchReport::from_files(
        "shorts".into(),
        vec![report_file("a.mp4", Status::Warn, ReviewState::Warn, vec![black()], None)],
    );
    let multi = MultiProfileReport::from_single(warn);
    assert_eq!(multi.profiles, vec!["shorts".to_string()]);
    assert_eq!(multi.exit_code(), 2);
}

#[test]
fn error_report_needs_attention() {
    let r = FileReport::error("x.mp4".into(), "boom".into(), Some(10));
    assert_eq!(r.status, Status::Fail);
    assert_eq!(r.review_state, ReviewState::NeedsHumanAttention);
    assert_eq!(r.error.as_deref(), Some("boom"));
    assert_eq!(r.file_size_bytes, Some(10));
}
