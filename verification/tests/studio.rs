use mediaqa::studio::admin::{build_admin_overview, support_snapshot};
use mediaqa::studio::auth::{login_with_token, switch_workspace, Session, User};
use mediaqa::studio::billing::{usage_summary, UsageLedger};
use mediaqa::studio::experiments::{assign_variant, ExperimentState};
use mediaqa::studio::invites::{accept_invite, create_invite};
use mediaqa::studio::jobs::{advance_job, queue_job, JobStatus};
use mediaqa::studio::retention::{is_expired, plan_retention, retention_cutoff, HistoryFile};
use mediaqa::studio::store::StudioData;
use mediaqa::studio::uploads::create_upload;
use mediaqa::studio::workspace::Workspace;
use mediaqa::studio::plans::PlanId;
use mediaqa::time::Timestamp;

#[test]
fn user_ids_are_email_slugs() {
    let u = User::new("operator@mediaqa.local", "tok");
    assert_eq!(u.id, "operator-mediaqa-local");
}

#[test]
fn login_reuses_existing_session_or_opens_demo_session() {
    let users = vec![User::new("a@b.c", "t1"), User::new("x@y.z", "t2")];
    let sessions = vec![Session::new("a-b-c", "ws1")];
    let s = login_with_token(&users, &sessions, "t1").unwrap();
    assert_eq!(s.workspace_id, "ws1");
    let s = login_with_token(&users, &sessions, "t2").unwrap();
    assert_eq!(s.token, "sess_x-y-z_demo-studio");
    assert!(login_with_token(&users, &sessions, "t3").is_none());
}

#[test]
fn switching_workspace_renames_the_session() {
    let mut s = Session::new("u1", "ws1");
    switch_workspace(&mut s, "ws2");
    assert_eq!(s.workspace_id, "ws2");
    assert_eq!(s.token, "sess_u1_ws2");
}

#[test]
fn a_job_completes_after_five_steps() {
    let mut job = queue_job("ws", "up", "youtube", at(1_700_000_000));
    assert_eq!(job.id, "job_ws_1700000000");
    assert_eq!(job.created_at, at(1_700_000_000));
    let expected = [(JobStatus::Running, 25), (JobStatus::Running, 50), (JobStatus::Running, 75), (JobStatus::Running, 90), (JobStatus::Completed, 100)];
    for (status, pct) in expected {
        advance_job(&mut job, at(1_700_000_060));
        assert_eq!(job.status, status);
        assert_eq!(job.progress_pct, pct);
    }
    assert_eq!(job.report_id, Some(format!("{}-report", job.id)));
    advance_job(&mut job, at(1_700_000_060));
    assert_eq!(job.status, JobStatus::Completed);
    assert_eq!(job.progress_pct, 100);
}

#[test]
fn invites_and_uploads() {
    let mut invite = create_invite("ws", "Jo Doe@x.y", at(5));
    assert_eq!(invite.token, "invite_ws_Jo-Doe-x-y");
    assert!(!invite.accepted);
    accept_invite(&mut invite);
    assert!(invite.accepted);
    let upload = create_upload("ws", "a.mp4", "store/a.mp4".into(), 9, at(-3));
    assert_eq!(upload.id, "upload_ws_-3");
    assert_eq!(upload.bytes, 9);
}

#[test]
fn ledger_counts_runs_and_storage() {
    let mut ledger = UsageLedger::default();
    ledger.record_run("ws", at(10));
    ledger.record_storage("ws", 1024, at(11));
    let s = usage_summary(&ledger);
    assert_eq!(s.runs_this_month, 1);
    assert_eq!(s.storage_bytes, 1024);
    assert_eq!(ledger.events.len(), 2);
}

#[test]
fn variant_follows_byte_sum() {
    let state = ExperimentState::default();
    // "a" = 97, odd: the second variant.
    assert_eq!(assign_variant(&state, "a").id, "annual_discount");
    // "b" = 98, even: the first.
    assert_eq!(assign_variant(&state, "b").id, "control");
}

#[test]
fn overview_counts_open_jobs_and_pending_invites() {
    let mut data = StudioData::seed();
    data.workspaces.push(Workspace::new("other", "Other", PlanId::Free));
    data.jobs.push(queue_job("demo-studio", "u1", "youtube", at(1)));
    let mut done = queue_job("demo-studio", "u2", "youtube", at(2));
    for _ in 0..5 {
        advance_job(&mut done, at(3));
    }
    data.jobs.push(done);
    data.invites.push(create_invite("other", "a@b.c", at(4)));
    let overview = build_admin_overview(&data);
    assert_eq!(overview.workspaces.len(), 2);
    assert_eq!(overview.workspaces[0].open_jobs, 1);
    assert_eq!(overview.workspaces[1].pending_invites, 1);
    let snap = support_snapshot(&data, "demo-studio").unwrap();
    assert_eq!(snap.jobs, 2);
    assert!(support_snapshot(&data, "missing").is_none());
}

#[test]
fn retention_deletes_old_reports_only() {
    let now = Timestamp { secs: 10 * 86_400, nanos: 0 };
    let cutoff = retention_cutoff(now, 7);
    assert_eq!(cutoff.secs, 3 * 86_400);
    assert!(is_expired(Timestamp { secs: 3 * 86_400 - 1, nanos: 0 }, cutoff));
    assert!(!is_expired(cutoff, cutoff));
    let files = vec![
        HistoryFile { path: "h/old.json".into(), modified: Timestamp { secs: 0, nanos: 0 } },
        HistoryFile { path: "h/new.json".into(), modified: now },
        HistoryFile { path: "h/old.txt".into(), modified: Timestamp { secs: 0, nanos: 0 } },
    ];
    let (doomed, result) = plan_retention(&files, cutoff);
    assert_eq!(doomed, vec!["h/old.json".to_string()]);
    assert_eq!(result.deleted, 1);
    assert_eq!(result.kept, 1);
}

fn at(secs: i64) -> Timestamp {
    Timestamp { secs, nanos: 0 }
}
