use mediaqa::time::Timestamp;
use mediaqa::api::{
    accept_invite_by_token, advance_job_by_id, authenticate, base64_decode, bearer_token, create_job,
    finish_remote_job, get_job, invite_member, listen_address, login, plan_for, pricing_variant_for,
    register_upload, retention_days_for, route, switch_session_workspace, usage_for, HttpMethod,
    RouteKind, ServeOptions,
};
use mediaqa::studio::jobs::JobStatus;
use mediaqa::studio::plans::PlanId;
use mediaqa::studio::store::StudioData;

#[test]
fn routes_requests() {
    assert_eq!(route(HttpMethod::Post, "/auth/login").kind, RouteKind::Login);
    assert_eq!(route(HttpMethod::Get, "/auth/login").kind, RouteKind::NotFound);
    let r = route(HttpMethod::Get, "/reports/20240101-000000");
    assert_eq!(r.kind, RouteKind::LoadReport);
    assert_eq!(r.arg, "20240101-000000");
    let r = route(HttpMethod::Post, "/jobs/job_7/advance");
    assert_eq!(r.kind, RouteKind::AdvanceJob);
    assert_eq!(r.arg, "job_7");
    let r = route(HttpMethod::Get, "/jobs/job_7");
    assert_eq!(r.kind, RouteKind::GetJob);
    assert_eq!(r.arg, "job_7");
    assert_eq!(route(HttpMethod::Get, "/reports").kind, RouteKind::ListReports);
    let r = route(HttpMethod::Get, "/admin/support/demo-studio");
    assert_eq!(r.kind, RouteKind::AdminSupport);
    assert_eq!(r.arg, "demo-studio");
    assert_eq!(route(HttpMethod::Post, "/retention/apply").kind, RouteKind::ApplyRetention);
    assert_eq!(route(HttpMethod::Other, "/usage").kind, RouteKind::NotFound);
}

#[test]
fn bearer_tokens() {
    assert_eq!(bearer_token("Bearer abc").as_deref(), Some("abc"));
    assert_eq!(bearer_token("Basic abc"), None);
}

fn standard_base64(bytes: &[u8]) -> String {
    let alphabet: Vec<char> = "ABCDEFGHIJKLMNOPQRSTUVWXYZabcdefghijklmnopqrstuvwxyz0123456789+/".chars().collect();
    let mut out = String::new();
    for chunk in bytes.chunks(3) {
        let b = [chunk[0], *chunk.get(1).unwrap_or(&0), *chunk.get(2).unwrap_or(&0)];
        let n = ((b[0] as u32) << 16) | ((b[1] as u32) << 8) | (b[2] as u32);
        for k in 0..4 {
            if k <= chunk.len() {
                out.push(alphabet[((n >> (18 - 6 * k)) & 63) as usize]);
            } else {
                out.push('=');
            }
        }
    }
    out
}

#[test]
fn base64_decoding_undoes_standard_encoding() {
    let all: Vec<u8> = (0..=255u8).collect();
    for len in 0..8 {
        let bytes: Vec<u8> = all.iter().rev().take(len * 37 % 256).cloned().collect();
        assert_eq!(base64_decode(&standard_base64(&bytes)).unwrap(), bytes);
    }
    assert_eq!(base64_decode(&standard_base64(&all)).unwrap(), all);
    assert_eq!(standard_base64(b"hello"), "aGVsbG8=");
}

#[test]
fn base64_decodes_standard_text() {
    assert_eq!(base64_decode("aGVsbG8=").unwrap(), b"hello".to_vec());
    assert_eq!(base64_decode("aGVs\nbG8gd29y bGQ=").unwrap(), b"hello world".to_vec());
    assert_eq!(base64_decode("TWFu").unwrap(), b"Man".to_vec());
    assert_eq!(base64_decode("").unwrap(), Vec::<u8>::new());
    assert_eq!(base64_decode("a+/=").unwrap(), vec![0x6b, 0xef]);
}

#[test]
fn base64_rejects_invalid_digits() {
    assert_eq!(base64_decode("ab*c"), Err("Invalid base64".to_string()));
    assert_eq!(base64_decode("ab=*"), Ok(vec![0x69]));
}

#[test]
fn sessions_are_authenticated() {
    let data = StudioData::seed();
    let err = authenticate(&data, None).unwrap_err();
    assert_eq!(err.status, 401);
    assert_eq!(err.message, "Missing Authorization header");
    let err = authenticate(&data, Some("nope".into())).unwrap_err();
    assert_eq!(err.message, "Invalid session");
    let s = authenticate(&data, Some("sess_operator-mediaqa-local_demo-studio".into())).unwrap();
    assert_eq!(s.workspace_id, "demo-studio");
}

#[test]
fn login_with_seeded_token() {
    let data = StudioData::seed();
    let s = login(&data, "demo-token-change-me").unwrap();
    assert_eq!(s.token, "sess_operator-mediaqa-local_demo-studio");
    assert_eq!(login(&data, "wrong").unwrap_err().message, "Invalid API token");
}

#[test]
fn switching_to_unknown_workspace_is_refused() {
    let mut data = StudioData::seed();
    let err = switch_session_workspace(&mut data, "sess_operator-mediaqa-local_demo-studio", "elsewhere");
    assert_eq!(err, Err("Workspace not found".to_string()));
    let err = switch_session_workspace(&mut data, "nope", "demo-studio");
    assert_eq!(err, Err("Session not found".to_string()));
    let s = switch_session_workspace(&mut data, "sess_operator-mediaqa-local_demo-studio", "demo-studio").unwrap();
    assert_eq!(s.token, "sess_operator-mediaqa-local_demo-studio");
}

#[test]
fn uploads_jobs_and_invites_flow() {
    let mut data = StudioData::seed();
    let session = data.sessions[0].clone();
    let upload = register_upload(&mut data, &session, "clip.mp4", "up/demo-studio/clip.mp4".into(), 42, NOW).unwrap();
    assert_eq!(upload.id, "upload_demo-studio_1704164645");
    assert_eq!(upload.created_at, NOW);
    assert_eq!(data.usage.storage_bytes, 42);
    assert_eq!(data.uploads.len(), 1);

    assert_eq!(
        create_job(&mut data, &session, "missing", "youtube", NOW).unwrap_err(),
        "Upload not found"
    );
    let (job, path) = create_job(&mut data, &session, &upload.id, "youtube", NOW).unwrap();
    assert_eq!(path, "up/demo-studio/clip.mp4");
    assert_eq!(job.status, JobStatus::Queued);
    assert_eq!(job.id, "job_demo-studio_1704164645");
    assert_eq!(data.usage.runs_this_month, 1);

    let advanced = advance_job_by_id(&mut data, &job.id, LATER).unwrap();
    assert_eq!(advanced.status, JobStatus::Running);
    assert_eq!(advanced.progress_pct, 25);
    assert_eq!(advanced.updated_at, LATER);
    assert_eq!(get_job(&data, &job.id).unwrap().progress_pct, 25);
    assert_eq!(advance_job_by_id(&mut data, "nope", LATER).unwrap_err(), "Job not found");

    finish_remote_job(&mut data, &job.id, Some("20240101-000000".into()), LATER);
    let finished = get_job(&data, &job.id).unwrap();
    assert_eq!(finished.status, JobStatus::Running);
    assert_eq!(finished.progress_pct, 90);
    assert_eq!(finished.report_id.as_deref(), Some("20240101-000000"));

    let invite = invite_member(&mut data, &session, "new.person@studio.tv", NOW);
    assert_eq!(invite.token, "invite_demo-studio_new-person-studio-tv");
    let accepted = accept_invite_by_token(&mut data, &invite.token).unwrap();
    assert!(accepted.accepted);
    assert_eq!(accept_invite_by_token(&mut data, "nope").unwrap_err(), "Invite not found");

    assert_eq!(plan_for(&data, "demo-studio"), Some(PlanId::Pro));
    let (plan, usage) = usage_for(&data, "demo-studio").unwrap();
    assert_eq!(plan, PlanId::Pro);
    assert_eq!(usage.runs_this_month, 1);
    assert_eq!(retention_days_for(&data), 30);
    let variant = pricing_variant_for(&data, &session);
    assert!(variant.id == "control" || variant.id == "annual_discount");
}

#[test]
fn free_plan_cannot_upload() {
    let mut data = StudioData::seed();
    data.workspaces[0].plan = PlanId::Free;
    let session = data.sessions[0].clone();
    let err = register_upload(&mut data, &session, "a.mp4", "a.mp4".into(), 1, NOW).unwrap_err();
    assert_eq!(err, "Plan does not include remote uploads");
    assert_eq!(data.usage.storage_bytes, 0);
}

#[test]
fn run_limit_refuses_jobs() {
    let mut data = StudioData::seed();
    data.usage.runs_this_month = 500;
    let session = data.sessions[0].clone();
    assert_eq!(create_job(&mut data, &session, "x", "youtube", NOW).unwrap_err(), "Monthly run limit reached");
}

#[test]
fn serve_defaults() {
    let o = ServeOptions::default();
    assert_eq!(o.port, 8787);
    assert_eq!(o.history_dir, ".mediaqa/history");
    assert_eq!(listen_address(o.port), "127.0.0.1:8787");
}

const NOW: Timestamp = Timestamp { secs: 1_704_164_645, nanos: 0 };
const LATER: Timestamp = Timestamp { secs: 1_704_164_700, nanos: 5 };
