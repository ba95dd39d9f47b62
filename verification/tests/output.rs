use mediaqa::desktop::{local_qc_request_refusal, profiles_chosen_refusal, begin_watch, current_watch_status, desktop_watch_options, done_payload, scanned_payload, stop_watch_internal, WatchState};
use mediaqa::diff::{FileDiff, ReportDiff};
use mediaqa::float_text::Reading;
use mediaqa::history::{new_stored_report, report_file_name, select_report_files, stored_report_at};
use mediaqa::html_report::{html_escape, render_html};
use mediaqa::pipeline::{profile_report, run_batch, run_profiles, ProbedFile};
use mediaqa::config::{AppConfig, NamedProfile, Profile};
use mediaqa::metadata::MediaMetadata;
use mediaqa::render::{render_batch_report, render_report_diff};
use mediaqa::report::{BatchReport, FileReport, MultiProfileReport, ReviewState};
use mediaqa::time::{Timestamp, EARLIEST_SECS, LATEST_SECS};
use mediaqa::validate::{Finding, Severity, Status};
use mediaqa::webhook::{webhook_request, webhook_target};

fn sample_report() -> BatchReport {
    BatchReport::from_files(
        "youtube".into(),
        vec![FileReport {
            path: "a<b>.mp4".into(),
            status: Status::Warn,
            review_state: ReviewState::Warn,
            findings: vec![Finding { code: "BLACK_FRAMES".into(), severity: Severity::Warn, message: "x & y".into() }],
            suggestions: vec![],
            error: None,
            width: None,
            height: None,
            video_codec: None,
            file_size_bytes: None,
        }],
    )
}

#[test]
fn html_escape_replaces_markup() {
    assert_eq!(html_escape("<a href=\"x\">&</a>"), "&lt;a href=\"x\"&gt;&amp;&lt;/a&gt;");
}

#[test]
fn html_escape_leaves_plain_text_and_unescapes_back() {
    let plain = "clip \"one\" 'final'.mp4";
    assert_eq!(html_escape(plain), plain);
    let marked = "a<b>&c";
    let escaped = html_escape(marked);
    assert_eq!(escaped, "a&lt;b&gt;&amp;c");
    assert_eq!(escaped.replace("&lt;", "<").replace("&gt;", ">").replace("&amp;", "&"), marked);
}

#[test]
fn html_report_has_one_section_per_file_and_error_paragraphs() {
    let mut report = sample_report();
    let mut broken = report.files[0].clone();
    broken.path = "b.mp4".into();
    broken.error = Some("probe <failed>".into());
    report.files.push(broken);
    let html = render_html(&report);
    assert_eq!(html.matches("<section class=\"file\">").count(), 2);
    assert_eq!(html.matches("<p class=\"error\">Error: ").count(), 1);
    assert!(html.contains("<p class=\"error\">Error: probe &lt;failed&gt;</p>"));
    let second = html.find("<h2>b.mp4</h2>").expect("second section");
    assert!(html.find("<p class=\"error\">").expect("error") > second);
}

#[test]
fn html_report_lists_files() {
    let html = render_html(&sample_report());
    assert!(html.starts_with("<!DOCTYPE html>"));
    assert!(html.contains("<title>Media QA Report - youtube</title>"));
    assert!(html.contains("<h2>a&lt;b&gt;.mp4</h2><p>Status: Warn | Review: Warn</p>"));
    assert!(html.contains("<li class=\"warn\"><strong>BLACK_FRAMES</strong>: x &amp; y</li>"));
    assert!(html.contains("<h3>Suggestions</h3><ul><li>None</li></ul>"));
    assert!(html.contains("<p><strong>Overall:</strong> Warn</p>"));
    assert!(html.ends_with("</body>\n</html>"));
}

#[test]
fn text_report_matches_cli_output() {
    let text = render_batch_report(&sample_report());
    let expected = "Batch report for profile 'youtube' (1 file(s))\n\na<b>.mp4\n  status: Warn\n  review: Warn\n  [Warn] BLACK_FRAMES: x & y\n\nSummary:\n  passed: 0\n  warned: 1\n  failed: 0\n  errors: 0\n  needs human attention: 0\n  overall: Warn\n";
    assert_eq!(text, expected);
}

#[test]
fn diff_text_shows_fixes() {
    let d = ReportDiff {
        added_files: vec!["n.mp4".into()],
        removed_files: vec![],
        changed_files: vec![FileDiff {
            path: "c.mp4".into(),
            before_status: Status::Pass,
            after_status: Status::Fail,
            added_findings: vec![Finding { code: "AUDIO_REQUIRED".into(), severity: Severity::Fail, message: "no audio".into() }],
            removed_findings: vec![],
        }],
    };
    let text = render_report_diff(&d);
    assert!(text.starts_with("QC run diff\nAdded files:\n  + n.mp4\n\nc.mp4: Pass -> Fail\n  + [AUDIO_REQUIRED] no audio\n    fix: "));
}

#[test]
fn webhook_request_targets_host_and_path() {
    let (host, path) = webhook_target("http://hooks.local:9000/qc/done");
    assert_eq!(host, "hooks.local:9000");
    assert_eq!(path, "/qc/done");
    let (host, path) = webhook_target("https://example.com");
    assert_eq!(host, "example.com");
    assert_eq!(path, "/");
    let req = webhook_request("http://h/p", "{\"a\":\"é\"}");
    assert_eq!(req, "POST /p HTTP/1.1\r\nHost: h\r\nContent-Type: application/json\r\nContent-Length: 10\r\nConnection: close\r\n\r\n{\"a\":\"é\"}");
}

#[test]
fn history_helpers() {
    assert_eq!(report_file_name("20240102-030405"), "20240102-030405.json");
    let files = select_report_files(vec!["h/b.json".into(), "h/a.json".into(), "h/notes.txt".into()]);
    assert_eq!(files, vec!["h/a.json".to_string(), "h/b.json".to_string()]);
    let stored = stored_report_at(sample_report(), Timestamp { secs: 1_704_164_645, nanos: 0 });
    assert_eq!(stored.id, "20240102-030405");
}

#[test]
fn pipeline_reports_probe_errors_and_findings() {
    let profile = Profile::default();
    let files = vec![
        ProbedFile { path: "bad.mp4".into(), probe: Err("ffprobe failed".into()), analysis: vec![] },
        ProbedFile {
            path: "good.mp4".into(),
            probe: Ok(MediaMetadata {
                duration_ns: Reading::Value(60_000_000_000),
                width: 1920,
                height: 1080,
                has_audio: true,
                format_name: "mp4".into(),
                video_codec: Some("h264".into()),
            }),
            analysis: vec![Finding { code: "BLACK_FRAMES".into(), severity: Severity::Warn, message: "b".into() }],
        },
    ];
    let report = run_batch(files, &profile, "youtube");
    assert_eq!(report.files.len(), 2);
    assert_eq!(report.files[0].status, Status::Fail);
    assert_eq!(report.files[0].error.as_deref(), Some("ffprobe failed"));
    assert_eq!(report.files[1].status, Status::Warn);
    assert_eq!(report.summary.errors, 1);
    assert_eq!(report.exit_code(), 1);
}

#[test]
fn desktop_watch_state() {
    let mut state = WatchState::new();
    assert!(!current_watch_status(&state).active);
    assert_eq!(begin_watch(&mut state, "/in", vec![], 5, false, true), Err("Select at least one delivery profile".to_string()));
    let status = begin_watch(&mut state, "/in", vec!["youtube".into()], 5, true, true).unwrap();
    assert!(status.active);
    assert_eq!(status.debounce_secs, Some(5));
    let rt = stop_watch_internal(&mut state).unwrap();
    assert_eq!(rt.path, "/in");
    assert!(!current_watch_status(&state).active);
    assert_eq!(begin_watch(&mut state, "/nope", vec!["youtube".into()], 5, true, false), Err("Watch path must be an existing folder".to_string()));
    assert_eq!(desktop_watch_options(0, false).debounce_ms, 1_000);
    assert_eq!(scanned_payload(3).message, "Found 3 media file(s)");
    let multi = MultiProfileReport::from_single(sample_report());
    assert_eq!(done_payload(&multi).total, Some(1));
}

#[test]
fn local_qc_request_is_refused_in_order() {
    let config = AppConfig { profiles: vec![NamedProfile { name: "youtube".into(), profile: Profile::default() }] };
    let none: Vec<String> = vec![];
    let yt: Vec<String> = vec!["youtube".into()];
    let mixed: Vec<String> = vec!["youtube".into(), "tiktok".into(), "vimeo".into()];
    assert_eq!(profiles_chosen_refusal(&none), Some("Select at least one delivery profile".to_string()));
    assert_eq!(profiles_chosen_refusal(&yt), None);
    assert_eq!(local_qc_request_refusal(&config, &none, 0), Some("Select at least one delivery profile".to_string()));
    assert_eq!(local_qc_request_refusal(&config, &yt, 0), Some("No media files found".to_string()));
    assert_eq!(local_qc_request_refusal(&config, &mixed, 3), Some("Profile not found: tiktok".to_string()));
    assert_eq!(local_qc_request_refusal(&config, &yt, 3), None);
}

#[test]
fn report_ids_cover_the_whole_calendar() {
    let first = new_stored_report(sample_report(), Timestamp { secs: EARLIEST_SECS, nanos: 0 });
    assert_eq!(first.id, "-2621430101-000000");
    let last = stored_report_at(sample_report(), Timestamp { secs: LATEST_SECS, nanos: 7 });
    assert_eq!(last.id, "+2621421231-235959");
    assert_eq!(last.created_at, Timestamp { secs: LATEST_SECS, nanos: 7 });
}

fn probed_good() -> ProbedFile {
    ProbedFile {
        path: "good.mp4".into(),
        probe: Ok(MediaMetadata {
            duration_ns: Reading::Value(60_000_000_000),
            width: 1920,
            height: 1080,
            has_audio: true,
            format_name: "mp4".into(),
            video_codec: Some("h264".into()),
        }),
        analysis: vec![],
    }
}

#[test]
fn probed_files_are_checked_against_each_named_profile() {
    let mut small = Profile::default();
    small.width = 1280;
    small.height = 720;
    let config = AppConfig {
        profiles: vec![
            NamedProfile { name: "youtube".into(), profile: Profile::default() },
            NamedProfile { name: "small".into(), profile: small },
        ],
    };
    let files = vec![probed_good()];
    let one = profile_report(&files, &config, "small").unwrap();
    assert_eq!(one.profile, "small");
    assert_eq!(one.files[0].status, Status::Fail);
    assert_eq!(profile_report(&files, &config, "tiktok").unwrap_err(), "Profile not found: tiktok");
    let names: Vec<String> = vec!["youtube".into(), "small".into()];
    let multi = run_profiles(&files, &config, &names).unwrap();
    assert_eq!(multi.profiles, names);
    assert_eq!(multi.reports[0].files[0].status, Status::Pass);
    assert_eq!(multi.reports[1].files[0].status, Status::Fail);
    let bad: Vec<String> = vec!["youtube".into(), "tiktok".into(), "vimeo".into()];
    assert_eq!(run_profiles(&files, &config, &bad).unwrap_err(), "Profile not found: tiktok");
}
