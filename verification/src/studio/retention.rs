use vstd::prelude::*;

use crate::history::is_report_file;
use crate::paths::extension_chars;
use crate::text::{chars_eq, chars_of};
use crate::time::{Timestamp, EARLIEST_SECS};

verus! {

/// How many history files a retention pass deleted and kept.
#[derive(Debug, Clone, Copy, PartialEq, Eq, Structural, Default)]
pub struct RetentionResult {
    pub deleted: usize,
    pub kept: usize,
}

/// A file of the history folder and when it was last modified.
#[derive(Debug, Clone)]
pub struct HistoryFile {
    pub path: String,
    pub modified: Timestamp,
}

/// `a` is earlier than `b`.
pub open spec fn earlier(a: Timestamp, b: Timestamp) -> bool {
    a.secs < b.secs || (a.secs == b.secs && a.nanos < b.nanos)
}

/// The instant `days` whole days before `now`.
pub open spec fn days_before(now: Timestamp, days: u32) -> Timestamp {
    Timestamp { secs: (now.secs - days * 86400) as i64, nanos: now.nanos }
}

/// The instant before which history files are deleted: `days` days before
/// `now`.
pub fn retention_cutoff(now: Timestamp, days: u32) -> (c: Timestamp)
    requires
        now.secs - days * 86400 >= EARLIEST_SECS,
    ensures
        c == days_before(now, days),
{
    let span: i64 = (days as i64) * 86400;
    Timestamp { secs: now.secs - span, nanos: now.nanos }
}

/// Whether a file modified at `modified` is older than the cutoff.
pub fn is_expired(modified: Timestamp, cutoff: Timestamp) -> (r: bool)
    ensures
        r == earlier(modified, cutoff),
{
    modified.secs < cutoff.secs || (modified.secs == cutoff.secs && modified.nanos < cutoff.nanos)
}

/// The report files of `files` that are older than the cutoff, in order.
pub open spec fn expired_files(files: Seq<HistoryFile>, cutoff: Timestamp) -> Seq<Seq<char>>
    decreases files.len(),
{
    if files.len() == 0 {
        Seq::empty()
    } else {
        let rest = expired_files(files.drop_last(), cutoff);
        let f = files.last();
        if is_report_file(f.path@) && earlier(f.modified, cutoff) {
            rest.push(f.path@)
        } else {
            rest
        }
    }
}

/// The number of report files of `files` that are not older than the
/// cutoff.
pub open spec fn kept_count(files: Seq<HistoryFile>, cutoff: Timestamp) -> nat
    decreases files.len(),
{
    if files.len() == 0 {
        0
    } else {
        let f = files.last();
        kept_count(files.drop_last(), cutoff) + if is_report_file(f.path@) && !earlier(f.modified, cutoff) {
            1nat
        } else {
            0nat
        }
    }
}

/// What a retention pass does to the history folder: the report files to
/// delete, in order, and the counts it reports. Files that are not reports
/// are left alone and not counted.
pub fn plan_retention(files: &[HistoryFile], cutoff: Timestamp) -> (r: (Vec<String>, RetentionResult))
    ensures
        crate::seqs::string_views(r.0@) == expired_files(files@, cutoff),
        r.1.deleted == expired_files(files@, cutoff).len(),
        r.1.kept == kept_count(files@, cutoff),
{
    let json = chars_of("json");
    let mut doomed: Vec<String> = Vec::new();
    let mut kept: usize = 0;
    let n = files.len();
    let mut i: usize = 0;
    while i < n
        invariant
            n == files@.len(),
            i <= n,
            json@ == "json"@,
            crate::seqs::string_views(doomed@) == expired_files(files@.take(i as int), cutoff),
            kept == kept_count(files@.take(i as int), cutoff),
            doomed@.len() + kept <= i,
        decreases n - i,
    {
        let f = &files[i];
        let p = chars_of(f.path.as_str());
        let is_json = match extension_chars(p.as_slice()) {
            Some(ext) => chars_eq(ext.as_slice(), json.as_slice()),
            None => false,
        };
        assert(files@.take(i + 1).drop_last() =~= files@.take(i as int));
        let ghost before = crate::seqs::string_views(doomed@);
        if is_json {
            if is_expired(f.modified, cutoff) {
                doomed.push(f.path.clone());
                assert(crate::seqs::string_views(doomed@) =~= before.push(f.path@));
            } else {
                kept = kept + 1;
            }
        }
        i = i + 1;
    }
    assert(files@.take(n as int) =~= files@);
    let deleted = doomed.len();
    (doomed, RetentionResult { deleted, kept })
}

} // verus!
