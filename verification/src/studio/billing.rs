use vstd::prelude::*;

use crate::text::owned;
use crate::time::Timestamp;

verus! {

/// What a usage event counts.
#[derive(Debug, Clone, Copy, PartialEq, Eq, Structural)]
pub enum UsageKind {
    QcRun,
    StorageBytes,
    RemoteJob,
}

/// One recorded use of the service.
#[derive(Debug, Clone, PartialEq, Eq)]
pub struct UsageEvent {
    pub at: Timestamp,
    pub workspace_id: String,
    pub kind: UsageKind,
    pub amount: u64,
}

/// The running totals of use this month, with the events behind them.
#[derive(Debug, Clone, PartialEq, Eq)]
pub struct UsageLedger {
    pub runs_this_month: u32,
    pub storage_bytes: u64,
    pub events: Vec<UsageEvent>,
}

/// The totals of a ledger. (The estimated cost is worked out from these
/// where the summary is shown.)
#[derive(Debug, Clone, Copy, PartialEq, Eq, Structural)]
pub struct UsageSummary {
    pub runs_this_month: u32,
    pub storage_bytes: u64,
}

impl Default for UsageLedger {
    fn default() -> (r: Self)
        ensures
            r.runs_this_month == 0,
            r.storage_bytes == 0,
            r.events@.len() == 0,
    {
        UsageLedger { runs_this_month: 0, storage_bytes: 0, events: Vec::new() }
    }
}

impl UsageLedger {
    /// Counts one run for the workspace, made at `now`.
    pub fn record_run(&mut self, workspace_id: &str, now: Timestamp)
        requires
            old(self).runs_this_month < u32::MAX,
        ensures
            final(self).runs_this_month == old(self).runs_this_month + 1,
            final(self).storage_bytes == old(self).storage_bytes,
            final(self).events@.len() == old(self).events@.len() + 1,
            final(self).events@.drop_last() == old(self).events@,
            final(self).events@.last().workspace_id@ == workspace_id@,
            final(self).events@.last().kind == UsageKind::QcRun,
            final(self).events@.last().amount == 1,
            final(self).events@.last().at == now,
    {
        self.runs_this_month = self.runs_this_month + 1;
        self.events.push(UsageEvent {
            at: now,
            workspace_id: owned(workspace_id),
            kind: UsageKind::QcRun,
            amount: 1,
        });
    }

    /// Counts `bytes` of storage for the workspace, stored at `now`.
    pub fn record_storage(&mut self, workspace_id: &str, bytes: u64, now: Timestamp)
        requires
            old(self).storage_bytes + bytes <= u64::MAX,
        ensures
            final(self).storage_bytes == old(self).storage_bytes + bytes,
            final(self).runs_this_month == old(self).runs_this_month,
            final(self).events@.len() == old(self).events@.len() + 1,
            final(self).events@.drop_last() == old(self).events@,
            final(self).events@.last().workspace_id@ == workspace_id@,
            final(self).events@.last().kind == UsageKind::StorageBytes,
            final(self).events@.last().amount == bytes,
            final(self).events@.last().at == now,
    {
        self.storage_bytes = self.storage_bytes + bytes;
        self.events.push(UsageEvent {
            at: now,
            workspace_id: owned(workspace_id),
            kind: UsageKind::StorageBytes,
            amount: bytes,
        });
    }
}

/// The totals of the ledger.
pub fn usage_summary(ledger: &UsageLedger) -> (s: UsageSummary)
    ensures
        s.runs_this_month == ledger.runs_this_month,
        s.storage_bytes == ledger.storage_bytes,
{
    UsageSummary { runs_this_month: ledger.runs_this_month, storage_bytes: ledger.storage_bytes }
}

} // verus!
