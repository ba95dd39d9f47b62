use mediaqa::diff::diff_reports;
use mediaqa::report::{BatchReport, FileReport, ReviewState};
use mediaqa::validate::{Finding, Severity, Status};

fn file(path: &str, status: Status, review: ReviewState, findings: Vec<Finding>) -> FileReport {
    FileReport {
        path: path.into(),
        status,
        review_state: review,
        findings,
        suggestions: vec![],
        error: None,
        width: None,
        height: None,
        video_codec: None,
        file_size_bytes: None,
    }
}

#[test]
fn diff_reports_detects_status_change() {
    let before = BatchReport::from_files(
        "youtube".into(),
        vec![file("clip.mp4", Status::Pass, ReviewState::Pass, vec![])],
    );
    let after = BatchReport::from_files(
        "youtube".into(),
        vec![file(
            "clip.mp4",
            Status::Fail,
            ReviewState::NeedsHumanAttention,
            vec![Finding {
                code: "AUDIO_REQUIRED".into(),
                severity: Severity::Fail,
                message: "missing audio".into(),
            }],
        )],
    );

    let diff = diff_reports(&before, &after);
    assert_eq!(diff.changed_files.len(), 1);
    assert_eq!(diff.changed_files[0].after_status, Status::Fail);
}

#[test]
fn diff_of_same_run_is_empty() {
    let run = BatchReport::from_files(
        "youtube".into(),
        vec![
            file("a.mp4", Status::Pass, ReviewState::Pass, vec![]),
            file("b.mp4", Status::Warn, ReviewState::Warn, vec![]),
        ],
    );
    let diff = diff_reports(&run, &run);
    assert!(diff.added_files.is_empty());
    assert!(diff.removed_files.is_empty());
    assert!(diff.changed_files.is_empty());
}

#[test]
fn diff_lists_added_and_removed_files() {
    let before = BatchReport::from_files(
        "youtube".into(),
        vec![file("old.mp4", Status::Pass, ReviewState::Pass, vec![])],
    );
    let after = BatchReport::from_files(
        "youtube".into(),
        vec![file("new.mp4", Status::Pass, ReviewState::Pass, vec![])],
    );
    let diff = diff_reports(&before, &after);
    assert_eq!(diff.added_files, vec!["new.mp4".to_string()]);
    assert_eq!(diff.removed_files, vec!["old.mp4".to_string()]);
}
