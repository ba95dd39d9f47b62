use vstd::prelude::*;

use crate::text::str_eq;

verus! {

/// A subscription plan.
#[derive(Debug, Clone, Copy, PartialEq, Eq, Structural)]
pub enum PlanId {
    Free,
    Pro,
    Studio,
}

/// What a plan allows.
#[derive(Debug, Clone, Copy, PartialEq, Eq, Structural)]
pub struct PlanFeatures {
    pub max_runs_per_month: u32,
    pub retention_days: u32,
    pub parallel_batch: bool,
    pub webhooks: bool,
    pub remote_jobs: bool,
    pub team_seats: u32,
    pub watch_mode: bool,
    pub html_reports: bool,
}

/// The features of each plan.
pub open spec fn plan_features(plan: PlanId) -> PlanFeatures {
    match plan {
        PlanId::Free => PlanFeatures {
            max_runs_per_month: 25,
            retention_days: 7,
            parallel_batch: false,
            webhooks: false,
            remote_jobs: false,
            team_seats: 1,
            watch_mode: false,
            html_reports: false,
        },
        PlanId::Pro => PlanFeatures {
            max_runs_per_month: 500,
            retention_days: 30,
            parallel_batch: true,
            webhooks: true,
            remote_jobs: true,
            team_seats: 5,
            watch_mode: true,
            html_reports: true,
        },
        PlanId::Studio => PlanFeatures {
            max_runs_per_month: 10_000,
            retention_days: 90,
            parallel_batch: true,
            webhooks: true,
            remote_jobs: true,
            team_seats: 25,
            watch_mode: true,
            html_reports: true,
        },
    }
}

impl PlanId {
    /// The features of this plan.
    pub fn features(self) -> (f: PlanFeatures)
        ensures
            f == plan_features(self),
    {
        match self {
            PlanId::Free => PlanFeatures {
                max_runs_per_month: 25,
                retention_days: 7,
                parallel_batch: false,
                webhooks: false,
                remote_jobs: false,
                team_seats: 1,
                watch_mode: false,
                html_reports: false,
            },
            PlanId::Pro => PlanFeatures {
                max_runs_per_month: 500,
                retention_days: 30,
                parallel_batch: true,
                webhooks: true,
                remote_jobs: true,
                team_seats: 5,
                watch_mode: true,
                html_reports: true,
            },
            PlanId::Studio => PlanFeatures {
                max_runs_per_month: 10_000,
                retention_days: 90,
                parallel_batch: true,
                webhooks: true,
                remote_jobs: true,
                team_seats: 25,
                watch_mode: true,
                html_reports: true,
            },
        }
    }
}

/// Whether the plan includes the named feature; unknown names are never
/// included.
pub open spec fn feature_gate(plan: PlanId, feature: Seq<char>) -> bool {
    let f = plan_features(plan);
    if feature == "parallel_batch"@ {
        f.parallel_batch
    } else if feature == "webhooks"@ {
        f.webhooks
    } else if feature == "remote_jobs"@ {
        f.remote_jobs
    } else if feature == "watch_mode"@ {
        f.watch_mode
    } else if feature == "html_reports"@ {
        f.html_reports
    } else {
        false
    }
}

/// Whether the plan includes the named feature.
pub fn gate_feature(plan: PlanId, feature: &str) -> (r: bool)
    ensures
        r == feature_gate(plan, feature@),
{
    let features = plan.features();
    if str_eq(feature, "parallel_batch") {
        features.parallel_batch
    } else if str_eq(feature, "webhooks") {
        features.webhooks
    } else if str_eq(feature, "remote_jobs") {
        features.remote_jobs
    } else if str_eq(feature, "watch_mode") {
        features.watch_mode
    } else if str_eq(feature, "html_reports") {
        features.html_reports
    } else {
        false
    }
}

/// Whether another run fits in the plan's monthly allowance.
pub fn within_run_limit(plan: PlanId, runs_this_month: u32) -> (r: bool)
    ensures
        r == (runs_this_month < plan_features(plan).max_runs_per_month),
{
    runs_this_month < plan.features().max_runs_per_month
}

/// The rank of a plan: Free, then Pro, then Studio.
pub open spec fn plan_rank(plan: PlanId) -> int {
    match plan {
        PlanId::Free => 0,
        PlanId::Pro => 1,
        PlanId::Studio => 2,
    }
}

/// A higher plan allows at least what a lower one does: as many runs, as
/// long a retention, as many seats, and every feature the lower one has.
pub proof fn law_plans_are_monotone(lower: PlanId, higher: PlanId)
    requires
        plan_rank(lower) <= plan_rank(higher),
    ensures
        plan_features(lower).max_runs_per_month <= plan_features(higher).max_runs_per_month,
        plan_features(lower).retention_days <= plan_features(higher).retention_days,
        plan_features(lower).team_seats <= plan_features(higher).team_seats,
        forall|name: Seq<char>| #[trigger] feature_gate(lower, name) ==> feature_gate(higher, name),
{
}

/// A plan that allows some number of runs this month also allows any
/// smaller number.
pub proof fn law_run_limit_is_downward_closed(plan: PlanId, fewer: u32, more: u32)
    requires
        fewer <= more,
        more < plan_features(plan).max_runs_per_month,
    ensures
        fewer < plan_features(plan).max_runs_per_month,
{
}

} // verus!
