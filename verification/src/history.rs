use vstd::prelude::*;

use crate::paths::{extension, extension_chars, sort_paths, sorted_paths};
use crate::report::BatchReport;
use crate::seqs::string_views;
use crate::text::{chars_eq, chars_of, owned, push_str};
use crate::time::{compact_stamp, utc_compact_stamp, Timestamp, EARLIEST_SECS, LATEST_SECS};

verus! {

/// A batch report kept in the history, with its id and when it was saved.
#[derive(Debug)]
pub struct StoredReport {
    pub id: String,
    pub created_at: Timestamp,
    pub report: BatchReport,
}

/// The history entry for `report` saved at `now`: its id is the time
/// stamp of `now`.
pub fn stored_report_at(report: BatchReport, now: Timestamp) -> (r: StoredReport)
    requires
        EARLIEST_SECS <= now.secs <= LATEST_SECS,
    ensures
        r.id@ == compact_stamp(now.secs),
        r.created_at == now,
        r.report == report,
{
    let id = utc_compact_stamp(now.secs).unwrap();
    StoredReport { id, created_at: now, report }
}

/// The history entry for `report`, stamped with the clock reading `now`.
pub fn new_stored_report(report: BatchReport, now: Timestamp) -> (r: StoredReport)
    requires
        EARLIEST_SECS <= now.secs <= LATEST_SECS,
    ensures
        r.id@ == compact_stamp(now.secs),
        r.created_at == now,
        r.report == report,
{
    stored_report_at(report, now)
}

/// The name of the file that holds the report with this id.
pub fn report_file_name(id: &str) -> (r: String)
    ensures
        r@ == id@ + ".json"@,
{
    let mut s = owned(id);
    push_str(&mut s, ".json");
    s
}

/// The path names a report file: its extension is `json`.
pub open spec fn is_report_file(p: Seq<char>) -> bool {
    extension(p) == Some("json"@)
}

/// The paths among `paths` that name report files.
pub open spec fn report_files(paths: Seq<Seq<char>>) -> Seq<Seq<char>> {
    paths.filter(|p: Seq<char>| is_report_file(p))
}

/// The report files among the entries of the history folder, in path order.
pub fn select_report_files(paths: Vec<String>) -> (r: Vec<String>)
    ensures
        sorted_paths(string_views(r@)),
        string_views(r@).to_multiset() == report_files(string_views(paths@)).to_multiset(),
{
    let json = chars_of("json");
    let mut kept: Vec<String> = Vec::new();
    let n = paths.len();
    let mut i: usize = 0;
    while i < n
        invariant
            n == paths@.len(),
            i <= n,
            json@ == "json"@,
            string_views(kept@) == report_files(string_views(paths@).take(i as int)),
        decreases n - i,
    {
        let p = chars_of(paths[i].as_str());
        let keep = match extension_chars(p.as_slice()) {
            Some(ext) => chars_eq(ext.as_slice(), json.as_slice()),
            None => false,
        };
        let ghost before = string_views(kept@);
        proof {
            let v = string_views(paths@);
            assert(v.take(i + 1) =~= v.take(i as int).push(v[i as int]));
            assert(v.take(i + 1).drop_last() =~= v.take(i as int));
            assert(keep == is_report_file(v[i as int]));
            reveal(Seq::filter);
        }
        if keep {
            kept.push(paths[i].clone());
            assert(string_views(kept@) =~= before.push(paths@[i as int]@));
        }
        i = i + 1;
    }
    assert(string_views(paths@).take(n as int) =~= string_views(paths@));
    sort_paths(kept)
}

} // verus!
