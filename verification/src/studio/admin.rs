use vstd::prelude::*;

use crate::seqs::{count_where, find_first, lemma_count_where_le};
use crate::studio::billing::{usage_summary, UsageSummary};
use crate::studio::invites::Invite;
use crate::studio::jobs::{JobStatus, RemoteJob};
use crate::studio::plans::PlanId;
use crate::studio::store::{workspace_has_id, StudioData};
use crate::studio::uploads::UploadRecord;
use crate::text::str_eq;

verus! {

/// One workspace as the operator's overview shows it.
#[derive(Debug, Clone, PartialEq, Eq)]
pub struct WorkspaceSummary {
    pub id: String,
    pub name: String,
    pub plan: PlanId,
    pub runs_this_month: u32,
    pub storage_bytes: u64,
    pub open_jobs: usize,
    pub pending_invites: usize,
}

/// The operator's overview of all workspaces.
#[derive(Debug, Clone, PartialEq, Eq)]
pub struct AdminOverview {
    pub workspaces: Vec<WorkspaceSummary>,
    pub total_runs: u32,
    pub total_storage_bytes: u64,
}

/// What support sees of one workspace.
#[derive(Debug, Clone, PartialEq, Eq)]
pub struct SupportSnapshot {
    pub workspace_id: String,
    pub plan: PlanId,
    pub usage: UsageSummary,
    pub uploads: usize,
    pub jobs: usize,
}

/// The job belongs to the workspace and is queued or running.
pub open spec fn is_open_job_of(workspace_id: Seq<char>) -> spec_fn(RemoteJob) -> bool {
    |j: RemoteJob| j.workspace_id@ == workspace_id && (j.status == JobStatus::Queued || j.status == JobStatus::Running)
}

/// The job belongs to the workspace.
pub open spec fn is_job_of(workspace_id: Seq<char>) -> spec_fn(RemoteJob) -> bool {
    |j: RemoteJob| j.workspace_id@ == workspace_id
}

/// The invitation is to the workspace and not yet accepted.
pub open spec fn is_pending_invite_of(workspace_id: Seq<char>) -> spec_fn(Invite) -> bool {
    |i: Invite| i.workspace_id@ == workspace_id && !i.accepted
}

/// The upload belongs to the workspace.
pub open spec fn is_upload_of(workspace_id: Seq<char>) -> spec_fn(UploadRecord) -> bool {
    |u: UploadRecord| u.workspace_id@ == workspace_id
}

fn count_open_jobs(jobs: &Vec<RemoteJob>, workspace_id: &str) -> (r: usize)
    ensures
        r == count_where(jobs@, is_open_job_of(workspace_id@)),
{
    let n = jobs.len();
    let mut c: usize = 0;
    let mut i: usize = 0;
    while i < n
        invariant
            n == jobs@.len(),
            i <= n,
            c == count_where(jobs@.take(i as int), is_open_job_of(workspace_id@)),
        decreases n - i,
    {
        proof {
            assert(jobs@.take(i + 1).drop_last() =~= jobs@.take(i as int));
            lemma_count_where_le(jobs@.take(i as int), is_open_job_of(workspace_id@));
        }
        let j = &jobs[i];
        if str_eq(j.workspace_id.as_str(), workspace_id) && (j.status == JobStatus::Queued || j.status == JobStatus::Running) {
            c = c + 1;
        }
        i = i + 1;
    }
    assert(jobs@.take(n as int) =~= jobs@);
    c
}

fn count_jobs(jobs: &Vec<RemoteJob>, workspace_id: &str) -> (r: usize)
    ensures
        r == count_where(jobs@, is_job_of(workspace_id@)),
{
    let n = jobs.len();
    let mut c: usize = 0;
    let mut i: usize = 0;
    while i < n
        invariant
            n == jobs@.len(),
            i <= n,
            c == count_where(jobs@.take(i as int), is_job_of(workspace_id@)),
        decreases n - i,
    {
        proof {
            assert(jobs@.take(i + 1).drop_last() =~= jobs@.take(i as int));
            lemma_count_where_le(jobs@.take(i as int), is_job_of(workspace_id@));
        }
        if str_eq(jobs[i].workspace_id.as_str(), workspace_id) {
            c = c + 1;
        }
        i = i + 1;
    }
    assert(jobs@.take(n as int) =~= jobs@);
    c
}

fn count_pending_invites(invites: &Vec<Invite>, workspace_id: &str) -> (r: usize)
    ensures
        r == count_where(invites@, is_pending_invite_of(workspace_id@)),
{
    let n = invites.len();
    let mut c: usize = 0;
    let mut i: usize = 0;
    while i < n
        invariant
            n == invites@.len(),
            i <= n,
            c == count_where(invites@.take(i as int), is_pending_invite_of(workspace_id@)),
        decreases n - i,
    {
        proof {
            assert(invites@.take(i + 1).drop_last() =~= invites@.take(i as int));
            lemma_count_where_le(invites@.take(i as int), is_pending_invite_of(workspace_id@));
        }
        if str_eq(invites[i].workspace_id.as_str(), workspace_id) && !invites[i].accepted {
            c = c + 1;
        }
        i = i + 1;
    }
    assert(invites@.take(n as int) =~= invites@);
    c
}

fn count_uploads(uploads: &Vec<UploadRecord>, workspace_id: &str) -> (r: usize)
    ensures
        r == count_where(uploads@, is_upload_of(workspace_id@)),
{
    let n = uploads.len();
    let mut c: usize = 0;
    let mut i: usize = 0;
    while i < n
        invariant
            n == uploads@.len(),
            i <= n,
            c == count_where(uploads@.take(i as int), is_upload_of(workspace_id@)),
        decreases n - i,
    {
        proof {
            assert(uploads@.take(i + 1).drop_last() =~= uploads@.take(i as int));
            lemma_count_where_le(uploads@.take(i as int), is_upload_of(workspace_id@));
        }
        if str_eq(uploads[i].workspace_id.as_str(), workspace_id) {
            c = c + 1;
        }
        i = i + 1;
    }
    assert(uploads@.take(n as int) =~= uploads@);
    c
}

/// The overview of every workspace, in order: its id, name and plan, the
/// month's usage totals, its queued or running jobs and its invitations not
/// yet accepted.
pub fn build_admin_overview(data: &StudioData) -> (r: AdminOverview)
    ensures
        r.total_runs == data.usage.runs_this_month,
        r.total_storage_bytes == data.usage.storage_bytes,
        r.workspaces@.len() == data.workspaces@.len(),
        forall|i: int| 0 <= i < data.workspaces@.len() ==> {
            let s = #[trigger] r.workspaces@[i];
            let w = data.workspaces@[i];
            &&& s.id == w.id
            &&& s.name == w.name
            &&& s.plan == w.plan
            &&& s.runs_this_month == data.usage.runs_this_month
            &&& s.storage_bytes == data.usage.storage_bytes
            &&& s.open_jobs == count_where(data.jobs@, is_open_job_of(w.id@))
            &&& s.pending_invites == count_where(data.invites@, is_pending_invite_of(w.id@))
        },
{
    let usage = usage_summary(&data.usage);
    let mut out: Vec<WorkspaceSummary> = Vec::new();
    let n = data.workspaces.len();
    let mut i: usize = 0;
    while i < n
        invariant
            n == data.workspaces@.len(),
            i <= n,
            usage.runs_this_month == data.usage.runs_this_month,
            usage.storage_bytes == data.usage.storage_bytes,
            out@.len() == i,
            forall|k: int| 0 <= k < i ==> {
                let s = #[trigger] out@[k];
                let w = data.workspaces@[k];
                &&& s.id == w.id
                &&& s.name == w.name
                &&& s.plan == w.plan
                &&& s.runs_this_month == data.usage.runs_this_month
                &&& s.storage_bytes == data.usage.storage_bytes
                &&& s.open_jobs == count_where(data.jobs@, is_open_job_of(w.id@))
                &&& s.pending_invites == count_where(data.invites@, is_pending_invite_of(w.id@))
            },
        decreases n - i,
    {
        let w = &data.workspaces[i];
        let summary = WorkspaceSummary {
            id: w.id.clone(),
            name: w.name.clone(),
            plan: w.plan,
            runs_this_month: usage.runs_this_month,
            storage_bytes: usage.storage_bytes,
            open_jobs: count_open_jobs(&data.jobs, w.id.as_str()),
            pending_invites: count_pending_invites(&data.invites, w.id.as_str()),
        };
        out.push(summary);
        i = i + 1;
    }
    AdminOverview { workspaces: out, total_runs: usage.runs_this_month, total_storage_bytes: usage.storage_bytes }
}

/// What support sees of a workspace, or `None` when there is no workspace
/// with that id: its plan, the month's usage totals, and how many uploads
/// and jobs it has.
pub fn support_snapshot(data: &StudioData, workspace_id: &str) -> (r: Option<SupportSnapshot>)
    ensures
        match r {
            None => find_first(data.workspaces@, workspace_has_id(workspace_id@)) == -1,
            Some(s) => {
                let i = find_first(data.workspaces@, workspace_has_id(workspace_id@));
                &&& 0 <= i
                &&& s.workspace_id == data.workspaces@[i].id
                &&& s.plan == data.workspaces@[i].plan
                &&& s.usage.runs_this_month == data.usage.runs_this_month
                &&& s.usage.storage_bytes == data.usage.storage_bytes
                &&& s.uploads == count_where(data.uploads@, is_upload_of(workspace_id@))
                &&& s.jobs == count_where(data.jobs@, is_job_of(workspace_id@))
            },
        },
{
    let workspace = match data.workspace(workspace_id) {
        Some(w) => w,
        None => return None,
    };
    Some(SupportSnapshot {
        workspace_id: workspace.id.clone(),
        plan: workspace.plan,
        usage: usage_summary(&data.usage),
        uploads: count_uploads(&data.uploads, workspace_id),
        jobs: count_jobs(&data.jobs, workspace_id),
    })
}

} // verus!
