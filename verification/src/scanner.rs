use vstd::prelude::*;

pub use crate::paths::is_media_candidate;
use crate::paths::is_media_path;
use crate::seqs::string_views;

verus! {

/// One entry met while walking a folder: its path and whether it is a
/// regular file.
#[derive(Clone, Debug)]
pub struct WalkEntry {
    pub path: String,
    pub is_file: bool,
}

/// The entry is a media file.
pub open spec fn is_media_entry(e: WalkEntry) -> bool {
    e.is_file && is_media_path(e.path@)
}

/// The paths of the media files among the entries, in walk order.
pub open spec fn media_paths(entries: Seq<WalkEntry>) -> Seq<Seq<char>>
    decreases entries.len(),
{
    if entries.len() == 0 {
        Seq::empty()
    } else {
        let rest = media_paths(entries.drop_last());
        if is_media_entry(entries.last()) {
            rest.push(entries.last().path@)
        } else {
            rest
        }
    }
}

/// Keeps the regular files with a media extension, in the order met.
pub fn select_media_files(entries: &[WalkEntry]) -> (r: Vec<String>)
    ensures
        string_views(r@) == media_paths(entries@),
{
    let mut out: Vec<String> = Vec::new();
    let n = entries.len();
    let mut i: usize = 0;
    while i < n
        invariant
            n == entries@.len(),
            i <= n,
            string_views(out@) == media_paths(entries@.take(i as int)),
        decreases n - i,
    {
        let e = &entries[i];
        let ghost before = string_views(out@);
        assert(entries@.take(i + 1).drop_last() =~= entries@.take(i as int));
        if e.is_file && is_media_candidate(e.path.as_str()) {
            out.push(e.path.clone());
            assert(string_views(out@) =~= before.push(e.path@));
        }
        i = i + 1;
    }
    assert(entries@.take(n as int) =~= entries@);
    out
}

} // verus!
