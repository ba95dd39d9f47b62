use mediaqa::studio::plans::{gate_feature, within_run_limit, PlanId};

#[test]
fn pro_plan_allows_parallel_batch() {
    assert!(gate_feature(PlanId::Pro, "parallel_batch"));
    assert!(!gate_feature(PlanId::Free, "parallel_batch"));
}

#[test]
fn run_limit_blocks_free_tier_overflow() {
    assert!(within_run_limit(PlanId::Free, 24));
    assert!(!within_run_limit(PlanId::Free, 25));
}

#[test]
fn unknown_feature_is_never_included() {
    assert!(!gate_feature(PlanId::Studio, "teleport"));
}

#[test]
fn studio_plan_features() {
    let f = PlanId::Studio.features();
    assert_eq!(f.max_runs_per_month, 10_000);
    assert_eq!(f.retention_days, 90);
    assert_eq!(f.team_seats, 25);
    assert!(f.webhooks);
}
