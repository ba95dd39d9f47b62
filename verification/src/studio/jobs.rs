use vstd::prelude::*;

use crate::text::{owned, push_signed_decimal, push_str, signed_dec};
use crate::time::Timestamp;

verus! {

/// Where a remote job stands.
#[derive(Debug, Clone, Copy, PartialEq, Eq, Structural)]
pub enum JobStatus {
    Queued,
    Running,
    Completed,
    Failed,
}

/// A check run on an uploaded file.
#[derive(Debug, Clone, PartialEq, Eq)]
pub struct RemoteJob {
    pub id: String,
    pub workspace_id: String,
    pub upload_id: String,
    pub profile: String,
    pub status: JobStatus,
    pub progress_pct: u8,
    pub created_at: Timestamp,
    pub updated_at: Timestamp,
    pub report_id: Option<String>,
    pub error: Option<String>,
}

/// The id of a job queued in `workspace_id` at `secs`.
pub open spec fn job_id(workspace_id: Seq<char>, secs: i64) -> Seq<char> {
    "job_"@ + workspace_id + "_"@ + signed_dec(secs as int)
}

/// A new job for an upload, queued at `now` with no progress.
pub fn queue_job(workspace_id: &str, upload_id: &str, profile: &str, now: Timestamp) -> (j: RemoteJob)
    ensures
        j.id@ == job_id(workspace_id@, now.secs),
        j.created_at == now,
        j.workspace_id@ == workspace_id@,
        j.upload_id@ == upload_id@,
        j.profile@ == profile@,
        j.status == JobStatus::Queued,
        j.progress_pct == 0,
        j.updated_at == j.created_at,
        j.report_id is None,
        j.error is None,
{
    let mut id = owned("job_");
    push_str(&mut id, workspace_id);
    push_str(&mut id, "_");
    push_signed_decimal(&mut id, now.secs);
    RemoteJob {
        id,
        workspace_id: owned(workspace_id),
        upload_id: owned(upload_id),
        profile: owned(profile),
        status: JobStatus::Queued,
        progress_pct: 0,
        created_at: now,
        updated_at: now,
        report_id: None,
        error: None,
    }
}

/// The status after one step: a queued job starts running, a running job
/// at 90% or more completes; others keep their status.
pub open spec fn next_status(status: JobStatus, progress: u8) -> JobStatus {
    match status {
        JobStatus::Queued => JobStatus::Running,
        JobStatus::Running => if progress < 90 {
            JobStatus::Running
        } else {
            JobStatus::Completed
        },
        _ => status,
    }
}

/// The progress after one step: 25% on start, then 25 points more up to
/// 90%, then 100% on completion.
pub open spec fn next_progress(status: JobStatus, progress: u8) -> u8 {
    match status {
        JobStatus::Queued => 25,
        JobStatus::Running => if progress < 90 {
            if progress + 25 < 90 {
                (progress + 25) as u8
            } else {
                90
            }
        } else {
            100
        },
        _ => progress,
    }
}

/// A job's report id, as text.
pub open spec fn report_id_view(r: Option<String>) -> Option<Seq<char>> {
    match r {
        Some(s) => Some(s@),
        None => None,
    }
}

/// Moves a job one step on and stamps it with the time `now`; a job
/// that completes gets the report id `{id}-report`.
pub fn advance_job(job: &mut RemoteJob, now: Timestamp)
    ensures
        final(job).status == next_status(old(job).status, old(job).progress_pct),
        final(job).progress_pct == next_progress(old(job).status, old(job).progress_pct),
        report_id_view(final(job).report_id) == if old(job).status == JobStatus::Running
            && old(job).progress_pct >= 90 {
            Some(old(job).id@ + "-report"@)
        } else {
            report_id_view(old(job).report_id)
        },
        final(job).id == old(job).id,
        final(job).workspace_id == old(job).workspace_id,
        final(job).upload_id == old(job).upload_id,
        final(job).profile == old(job).profile,
        final(job).created_at == old(job).created_at,
        final(job).error == old(job).error,
        final(job).updated_at == now,
{
    job.updated_at = now;
    match job.status {
        JobStatus::Queued => {
            job.status = JobStatus::Running;
            job.progress_pct = 25;
        },
        JobStatus::Running => {
            if job.progress_pct < 90 {
                let p = job.progress_pct + 25;
                job.progress_pct = if p < 90 { p } else { 90 };
            } else {
                job.status = JobStatus::Completed;
                job.progress_pct = 100;
                let mut r = job.id.clone();
                push_str(&mut r, "-report");
                job.report_id = Some(r);
            }
        },
        _ => {},
    }
}

/// One step of the job state machine on (status, progress).
pub open spec fn step(s: (JobStatus, u8)) -> (JobStatus, u8) {
    (next_status(s.0, s.1), next_progress(s.0, s.1))
}

/// A completed or failed job stays as it is.
pub proof fn law_finished_jobs_stay_finished(status: JobStatus, progress: u8)
    requires
        status == JobStatus::Completed || status == JobStatus::Failed,
    ensures
        step((status, progress)) == (status, progress),
{
}

/// The states a job can be in: queued at 0%, running between 25% and 90%,
/// completed at 100%, or failed.
pub open spec fn valid_job_state(status: JobStatus, progress: u8) -> bool {
    match status {
        JobStatus::Queued => progress == 0,
        JobStatus::Running => 25 <= progress <= 90,
        JobStatus::Completed => progress == 100,
        JobStatus::Failed => progress <= 100,
    }
}

/// A new job is in a valid state, and advancing keeps a job in a valid
/// state without ever lowering its progress.
pub proof fn law_advancing_keeps_jobs_valid(status: JobStatus, progress: u8)
    requires
        valid_job_state(status, progress),
    ensures
        valid_job_state(JobStatus::Queued, 0),
        valid_job_state(step((status, progress)).0, step((status, progress)).1),
        step((status, progress)).1 >= progress,
{
}

/// A new job completes, at 100%, on its fifth step and not before.
pub proof fn law_new_job_completes_in_five_steps()
    ensures
        step(step(step(step(step((JobStatus::Queued, 0u8)))))) == (JobStatus::Completed, 100u8),
        step(step(step(step((JobStatus::Queued, 0u8))))).0 == JobStatus::Running,
{
}

} // verus!
