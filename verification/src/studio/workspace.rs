use vstd::prelude::*;

use crate::studio::plans::PlanId;
use crate::text::owned;

verus! {

/// A team's workspace.
#[derive(Debug, Clone, PartialEq, Eq)]
pub struct Workspace {
    pub id: String,
    pub name: String,
    pub plan: PlanId,
    pub retention_days: u32,
}

impl Workspace {
    /// A workspace on `plan` that keeps reports for thirty days.
    pub fn new(id: &str, name: &str, plan: PlanId) -> (w: Workspace)
        ensures
            w.id@ == id@,
            w.name@ == name@,
            w.plan == plan,
            w.retention_days == 30,
    {
        Workspace { id: owned(id), name: owned(name), plan, retention_days: 30 }
    }
}

} // verus!
