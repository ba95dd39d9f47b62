use vstd::prelude::*;

use crate::config::{first_unknown_profile, profile_missing, lemma_first_unknown_profile, lookup_resolved, AppConfig};
use crate::report::{exit_code_of, multi_status, MultiProfileReport};
use crate::text::{owned, push_decimal, push_str};
use crate::watch::WatchOptions;

verus! {

/// A folder watch that is running, as the desktop app started it.
#[derive(Debug, Clone, PartialEq, Eq)]
pub struct WatchRuntime {
    pub path: String,
    pub profiles: Vec<String>,
    pub debounce_secs: u64,
    pub scan_existing: bool,
}

/// The desktop app's folder watch, if one is running.
#[derive(Debug)]
pub struct WatchState {
    pub runtime: Option<WatchRuntime>,
}

/// What the desktop app shows of its folder watch.
#[derive(Debug, Clone, PartialEq, Eq)]
pub struct WatchStatus {
    pub active: bool,
    pub path: Option<String>,
    pub profiles: Vec<String>,
    pub debounce_secs: Option<u64>,
    pub scan_existing: bool,
}

/// The outcome of a check run from the desktop app.
#[derive(Debug, Clone, PartialEq, Eq)]
pub struct LocalQcResult {
    pub exit_code: i32,
    pub report_json: String,
}

/// A progress message of a check run from the desktop app.
#[derive(Debug, Clone, PartialEq, Eq)]
pub struct QcProgressPayload {
    pub phase: String,
    pub message: String,
    pub current: Option<usize>,
    pub total: Option<usize>,
    pub profile: Option<String>,
}

fn copy_names(v: &Vec<String>) -> (r: Vec<String>)
    ensures
        r@ == v@,
{
    let mut out: Vec<String> = Vec::new();
    let n = v.len();
    let mut i: usize = 0;
    while i < n
        invariant
            n == v@.len(),
            i <= n,
            out@ == v@.take(i as int),
        decreases n - i,
    {
        out.push(v[i].clone());
        assert(v@.take(i + 1) =~= v@.take(i as int).push(v@[i as int]));
        i = i + 1;
    }
    assert(v@.take(n as int) =~= v@);
    out
}

impl WatchState {
    /// No watch running.
    pub fn new() -> (s: WatchState)
        ensures
            s.runtime is None,
    {
        WatchState { runtime: None }
    }
}

/// The status of the watch: its settings while one runs, else inactive
/// with no path, profiles or debounce.
pub fn current_watch_status(state: &WatchState) -> (s: WatchStatus)
    ensures
        match state.runtime {
            Some(rt) => {
                &&& s.active
                &&& s.path == Some(rt.path)
                &&& s.profiles@ == rt.profiles@
                &&& s.debounce_secs == Some(rt.debounce_secs)
                &&& s.scan_existing == rt.scan_existing
            },
            None => {
                &&& !s.active
                &&& s.path is None
                &&& s.profiles@.len() == 0
                &&& s.debounce_secs is None
                &&& !s.scan_existing
            },
        },
{
    match &state.runtime {
        Some(rt) => WatchStatus {
            active: true,
            path: Some(rt.path.clone()),
            profiles: copy_names(&rt.profiles),
            debounce_secs: Some(rt.debounce_secs),
            scan_existing: rt.scan_existing,
        },
        None => WatchStatus {
            active: false,
            path: None,
            profiles: Vec::new(),
            debounce_secs: None,
            scan_existing: false,
        },
    }
}

/// Stops the running watch, if any, and hands back its settings so that
/// its worker can be told to stop.
pub fn stop_watch_internal(state: &mut WatchState) -> (r: Option<WatchRuntime>)
    ensures
        final(state).runtime is None,
        r == old(state).runtime,
{
    let r = state.runtime.take();
    r
}

/// Starts a watch of `path` with these settings, stopping any watch that
/// runs. Refused, with the state left as it was, when no profile is given;
/// refused after stopping the old watch when the path is not a folder
/// (`is_dir`).
pub fn begin_watch(
    state: &mut WatchState,
    path: &str,
    profiles: Vec<String>,
    debounce_secs: u64,
    scan_existing: bool,
    is_dir: bool,
) -> (r: Result<WatchStatus, String>)
    ensures
        profiles@.len() == 0 ==> (r matches Err(e) && e@ == "Select at least one delivery profile"@)
            && final(state).runtime == old(state).runtime,
        profiles@.len() > 0 && !is_dir ==> (r matches Err(e) && e@ == "Watch path must be an existing folder"@)
            && final(state).runtime is None,
        profiles@.len() > 0 && is_dir ==> {
            &&& final(state).runtime matches Some(rt) && rt.path@ == path@ && rt.profiles@ == profiles@
                && rt.debounce_secs == debounce_secs && rt.scan_existing == scan_existing
            &&& r matches Ok(s) && s.active && (s.path matches Some(p) && p@ == path@)
                && s.profiles@ == profiles@ && s.debounce_secs == Some(debounce_secs)
                && s.scan_existing == scan_existing
        },
{
    if profiles.len() == 0 {
        return Err(owned("Select at least one delivery profile"));
    }
    let _ = stop_watch_internal(state);
    if !is_dir {
        return Err(owned("Watch path must be an existing folder"));
    }
    state.runtime = Some(WatchRuntime { path: owned(path), profiles, debounce_secs, scan_existing });
    Ok(current_watch_status(state))
}

/// Why a desktop check of `media_count` scanned files against the chosen
/// `profiles` cannot run, checked in this order: no profile chosen, no
/// media found, a chosen profile that `config` lacks (the first one).
pub open spec fn local_qc_refusal(config: AppConfig, profiles: Seq<String>, media_count: nat) -> Option<
    Seq<char>,
> {
    if profiles.len() == 0 {
        Some("Select at least one delivery profile"@)
    } else if media_count == 0 {
        Some("No media files found"@)
    } else {
        let k = first_unknown_profile(config, profiles);
        if k >= 0 {
            Some(profile_missing(profiles[k]@))
        } else {
            None
        }
    }
}

/// The refusal of a desktop check that has no profile to run, if so; the
/// app asks this before it loads the configuration and scans.
pub fn profiles_chosen_refusal(profiles: &[String]) -> (r: Option<String>)
    ensures
        profiles@.len() == 0 <==> r is Some,
        r matches Some(e) ==> e@ == "Select at least one delivery profile"@,
{
    if profiles.len() == 0 {
        Some(owned("Select at least one delivery profile"))
    } else {
        None
    }
}

/// Whether a desktop check of `media_count` scanned files against the
/// chosen `profiles` may run: `None` when it may, else the message it is
/// refused with.
pub fn local_qc_request_refusal(config: &AppConfig, profiles: &[String], media_count: usize) -> (r: Option<
    String,
>)
    ensures
        match r {
            Some(e) => local_qc_refusal(*config, profiles@, media_count as nat) == Some(e@),
            None => local_qc_refusal(*config, profiles@, media_count as nat) is None,
        },
{
    if profiles.len() == 0 {
        return Some(owned("Select at least one delivery profile"));
    }
    if media_count == 0 {
        return Some(owned("No media files found"));
    }
    let n = profiles.len();
    let mut i: usize = 0;
    while i < n
        invariant
            n == profiles@.len(),
            n > 0,
            media_count > 0,
            i <= n,
            forall|j: int|
                0 <= j < i ==> lookup_resolved(config.profiles@, (#[trigger] profiles@[j])@) is Some,
        decreases n - i,
    {
        if config.get(profiles[i].as_str()).is_none() {
            proof {
                lemma_first_unknown_profile(*config, profiles@, i as int);
            }
            let mut msg = owned("Profile not found: ");
            push_str(&mut msg, profiles[i].as_str());
            return Some(msg);
        }
        i = i + 1;
    }
    proof {
        lemma_first_unknown_profile(*config, profiles@, -1);
    }
    None
}

/// Milliseconds in `secs` seconds, at least one second, capped where the
/// count would not fit.
pub open spec fn debounce_ms_of(secs: u64) -> int {
    let s = if secs < 1 { 1 } else { secs as int };
    if s <= u64::MAX / 1000 {
        s * 1000
    } else {
        (u64::MAX / 1000) * 1000
    }
}

/// The watch options of a desktop watch: the debounce at least one second,
/// files checked in parallel.
pub fn desktop_watch_options(debounce_secs: u64, scan_existing: bool) -> (o: WatchOptions)
    ensures
        o.debounce_ms == debounce_ms_of(debounce_secs),
        o.parallel,
        o.scan_existing == scan_existing,
{
    let secs = if debounce_secs < 1 { 1 } else { debounce_secs };
    let capped = if secs <= u64::MAX / 1000 { secs } else { u64::MAX / 1000 };
    WatchOptions { debounce_ms: capped * 1000, parallel: true, scan_existing }
}

/// The message shown when a desktop check starts scanning.
pub fn scan_started_payload() -> (p: QcProgressPayload)
    ensures
        p.phase@ == "scan"@,
        p.message@ == "Scanning folder for media files\u{2026}"@,
        p.current is None,
        p.total is None,
        p.profile is None,
{
    QcProgressPayload {
        phase: owned("scan"),
        message: owned("Scanning folder for media files\u{2026}"),
        current: None,
        total: None,
        profile: None,
    }
}

/// The message shown once the scan found `count` media files.
pub fn scanned_payload(count: usize) -> (p: QcProgressPayload)
    ensures
        p.phase@ == "scanned"@,
        p.message@ == "Found "@ + crate::text::dec(count as nat) + " media file(s)"@,
        p.current is None,
        p.total == Some(count),
        p.profile is None,
{
    let mut m = owned("Found ");
    push_decimal(&mut m, count as u64);
    push_str(&mut m, " media file(s)");
    QcProgressPayload { phase: owned("scanned"), message: m, current: None, total: Some(count), profile: None }
}

/// A progress message of the checks of one profile; the counts are left
/// out while the total is not known (zero).
pub fn profile_progress_payload(phase: &str, message: String, current: usize, total: usize, profile: &str) -> (p:
    QcProgressPayload)
    ensures
        p.phase@ == phase@,
        p.message == message,
        p.current == if total > 0 { Some(current) } else { None::<usize> },
        p.total == if total > 0 { Some(total) } else { None::<usize> },
        p.profile matches Some(name) && name@ == profile@,
{
    QcProgressPayload {
        phase: owned(phase),
        message,
        current: if total > 0 { Some(current) } else { None },
        total: if total > 0 { Some(total) } else { None },
        profile: Some(owned(profile)),
    }
}

/// The number of files of the first report, or zero.
pub open spec fn first_total(m: MultiProfileReport) -> usize {
    if m.reports@.len() > 0 {
        m.reports@[0].summary.total
    } else {
        0
    }
}

/// The message shown when a desktop check is complete.
pub fn done_payload(multi: &MultiProfileReport) -> (p: QcProgressPayload)
    ensures
        p.phase@ == "done"@,
        p.message@ == "Check complete"@,
        p.current == Some(first_total(*multi)),
        p.total == Some(first_total(*multi)),
        p.profile is None,
{
    let total = if multi.reports.len() > 0 { multi.reports[0].summary.total } else { 0 };
    QcProgressPayload {
        phase: owned("done"),
        message: owned("Check complete"),
        current: Some(total),
        total: Some(total),
        profile: None,
    }
}

/// The result of a desktop check: the run's exit code and its report as
/// JSON.
pub fn local_qc_result(multi: &MultiProfileReport, report_json: String) -> (r: LocalQcResult)
    ensures
        r.exit_code == exit_code_of(multi_status(multi.reports@)),
        r.report_json == report_json,
{
    LocalQcResult { exit_code: multi.exit_code(), report_json }
}

} // verus!
