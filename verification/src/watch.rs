use vstd::prelude::*;

use crate::paths::{is_media_candidate, is_media_path, sort_paths, sorted_paths};
use crate::seqs::string_views;
use crate::text::{str_eq, push_str, owned, decimal};

verus! {

/// What the watcher knows of one file that is still being written: the size
/// seen last and, once that size has held, since when (milliseconds on the
/// watcher's clock).
#[derive(Clone, Copy, PartialEq, Eq, Structural, Debug)]
pub struct PendingWatch {
    pub last_size: u64,
    pub stable_since: Option<u64>,
}

/// One watched path and its state.
#[derive(Clone, Debug)]
pub struct PendingEntry {
    pub path: String,
    pub state: PendingWatch,
}

/// The files the watcher is waiting on, each path at most once.
#[derive(Clone, Debug)]
pub struct PendingWatches {
    entries: Vec<PendingEntry>,
}

/// No path occurs twice.
pub open spec fn keys_unique(s: Seq<PendingEntry>) -> bool {
    forall|i: int, j: int| 0 <= i < j < s.len() ==> #[trigger] s[i].path@ != #[trigger] s[j].path@
}

/// The entries as a map from path to state.
pub open spec fn entries_map(s: Seq<PendingEntry>) -> Map<Seq<char>, PendingWatch>
    decreases s.len(),
{
    if s.len() == 0 {
        Map::empty()
    } else {
        entries_map(s.drop_last()).insert(s.last().path@, s.last().state)
    }
}

/// With distinct paths, the map holds exactly the entries' paths, each with
/// its entry's state.
pub proof fn lemma_entries_map(s: Seq<PendingEntry>)
    requires
        keys_unique(s),
    ensures
        forall|k: Seq<char>| #[trigger] entries_map(s).dom().contains(k) <==> exists|i: int| 0 <= i < s.len() && s[i].path@ == k,
        forall|i: int| 0 <= i < s.len() ==> #[trigger] entries_map(s)[s[i].path@] == s[i].state,
        entries_map(s).dom().finite(),
    decreases s.len(),
{
    if s.len() > 0 {
        let t = s.drop_last();
        lemma_entries_map(t);
        let last = s.len() - 1;
        assert forall|k: Seq<char>| #[trigger] entries_map(s).dom().contains(k) <==> exists|i: int| 0 <= i < s.len() && s[i].path@ == k by {
            if entries_map(s).dom().contains(k) {
                if k == s[last].path@ {
                } else {
                    assert(entries_map(t).dom().contains(k));
                    let i = choose|i: int| 0 <= i < t.len() && t[i].path@ == k;
                    assert(s[i].path@ == k);
                }
            }
            if exists|i: int| 0 <= i < s.len() && s[i].path@ == k {
                let i = choose|i: int| 0 <= i < s.len() && s[i].path@ == k;
                if i < last {
                    assert(t[i].path@ == k);
                }
            }
        }
        assert forall|i: int| 0 <= i < s.len() implies #[trigger] entries_map(s)[s[i].path@] == s[i].state by {
            if i < last {
                assert(t[i] == s[i]);
                assert(s[i].path@ != s[last].path@);
            }
        }
    }
}

/// The state a watched file moves to when an event reports it at `size`
/// at time `now`: a changed size restarts the wait, an empty file never
/// settles, and a steady non-empty size starts the clock once.
pub open spec fn next_watch_state(old: Option<PendingWatch>, size: u64, now: u64) -> PendingWatch {
    let e = match old {
        Some(w) => w,
        None => PendingWatch { last_size: size, stable_since: None },
    };
    if e.last_size != size {
        PendingWatch { last_size: size, stable_since: None }
    } else if size == 0 {
        PendingWatch { last_size: size, stable_since: None }
    } else if e.stable_since is None {
        PendingWatch { last_size: size, stable_since: Some(now) }
    } else {
        e
    }
}

/// Time passed from `since` to `now`, zero when `now` is earlier.
pub open spec fn elapsed(now: u64, since: u64) -> int {
    if now >= since {
        now - since
    } else {
        0
    }
}

/// A file is ready once its size has held for the debounce window and it
/// is not empty.
pub open spec fn is_ready(w: PendingWatch, now: u64, debounce: u64) -> bool {
    match w.stable_since {
        Some(t) => w.last_size != 0 && elapsed(now, t) >= debounce,
        None => false,
    }
}

/// The paths of `m` that are ready.
pub open spec fn ready_set(m: Map<Seq<char>, PendingWatch>, now: u64, debounce: u64) -> Set<Seq<char>> {
    m.dom().filter(|k: Seq<char>| is_ready(m[k], now, debounce))
}

impl View for PendingWatches {
    type V = Map<Seq<char>, PendingWatch>;

    closed spec fn view(&self) -> Map<Seq<char>, PendingWatch> {
        entries_map(self.entries@)
    }
}

impl PendingWatches {
    /// The entries hold each path once.
    pub closed spec fn wf(&self) -> bool {
        keys_unique(self.entries@)
    }

    /// Nothing pending.
    pub fn new() -> (r: Self)
        ensures
            r.wf(),
            r@ == Map::<Seq<char>, PendingWatch>::empty(),
    {
        PendingWatches { entries: Vec::new() }
    }

    fn index_of_path(&self, path: &str) -> (r: Option<usize>)
        requires
            self.wf(),
        ensures
            match r {
                Some(i) => i < self.entries@.len() && self.entries@[i as int].path@ == path@,
                None => forall|i: int| 0 <= i < self.entries@.len() ==> self.entries@[i].path@ != path@,
            },
    {
        let n = self.entries.len();
        let mut i: usize = 0;
        while i < n
            invariant
                n == self.entries@.len(),
                i <= n,
                forall|j: int| 0 <= j < i ==> self.entries@[j].path@ != path@,
            decreases n - i,
        {
            if str_eq(self.entries[i].path.as_str(), path) {
                return Some(i);
            }
            i = i + 1;
        }
        None
    }

    /// The state of `path`, if it is pending.
    pub fn get(&self, path: &str) -> (r: Option<PendingWatch>)
        requires
            self.wf(),
        ensures
            r == self@.get(path@),
    {
        proof {
            lemma_entries_map(self.entries@);
        }
        match self.index_of_path(path) {
            Some(i) => Some(self.entries[i].state),
            None => None,
        }
    }

    /// Sets the state of `path`, adding it if it is not pending.
    pub fn insert(&mut self, path: &str, state: PendingWatch)
        requires
            old(self).wf(),
        ensures
            final(self).wf(),
            final(self)@ == old(self)@.insert(path@, state),
    {
        let ghost s0 = self.entries@;
        proof {
            lemma_entries_map(s0);
        }
        match self.index_of_path(path) {
            Some(i) => {
                let e = PendingEntry { path: owned(path), state };
                self.entries.set(i, e);
                let ghost s1 = self.entries@;
                proof {
                    assert(s1 == s0.update(i as int, e));
                    assert forall|a: int, b: int| 0 <= a < b < s1.len() implies #[trigger] s1[a].path@ != #[trigger] s1[b].path@ by {
                        if a != i && b != i {
                            assert(s1[a] == s0[a] && s1[b] == s0[b]);
                        } else if a == i {
                            assert(s1[b] == s0[b]);
                        } else {
                            assert(s1[a] == s0[a]);
                        }
                    }
                    lemma_entries_map(s1);
                    assert forall|k: Seq<char>| #[trigger] entries_map(s1).dom().contains(k) <==> entries_map(s0).insert(path@, state).dom().contains(k) by {
                        if entries_map(s1).dom().contains(k) {
                            let j = choose|j: int| 0 <= j < s1.len() && s1[j].path@ == k;
                            if j != i {
                                assert(s0[j] == s1[j]);
                            }
                        }
                        if entries_map(s0).dom().contains(k) {
                            let j = choose|j: int| 0 <= j < s0.len() && s0[j].path@ == k;
                            if j != i {
                                assert(s0[j] == s1[j]);
                            } else {
                                assert(s1[j].path@ == k);
                            }
                        }
                        if k == path@ {
                            assert(s1[i as int].path@ == k);
                        }
                    }
                    assert forall|k: Seq<char>| #[trigger] entries_map(s1).dom().contains(k) implies entries_map(s1)[k] == entries_map(s0).insert(path@, state)[k] by {
                        let j = choose|j: int| 0 <= j < s1.len() && s1[j].path@ == k;
                        if j != i {
                            assert(s0[j] == s1[j]);
                            assert(entries_map(s0)[s0[j].path@] == s0[j].state);
                        }
                        assert(entries_map(s1)[s1[j].path@] == s1[j].state);
                    }
                    assert(entries_map(s1) =~= entries_map(s0).insert(path@, state));
                }
            },
            None => {
                let e = PendingEntry { path: owned(path), state };
                self.entries.push(e);
                proof {
                    let s1 = self.entries@;
                    assert(s1.drop_last() =~= s0);
                    assert forall|a: int, b: int| 0 <= a < b < s1.len() implies #[trigger] s1[a].path@ != #[trigger] s1[b].path@ by {
                        if b < s0.len() {
                            assert(s1[a] == s0[a] && s1[b] == s0[b]);
                        } else {
                            assert(s1[a] == s0[a]);
                        }
                    }
                }
            },
        }
    }

    /// Stops waiting on `path`.
    pub fn remove(&mut self, path: &str)
        requires
            old(self).wf(),
        ensures
            final(self).wf(),
            final(self)@ == old(self)@.remove(path@),
    {
        let ghost s0 = self.entries@;
        proof {
            lemma_entries_map(s0);
        }
        match self.index_of_path(path) {
            None => {
                assert(entries_map(s0) =~= entries_map(s0).remove(path@));
            },
            Some(i) => {
                self.entries.remove(i);
                proof {
                    let s1 = self.entries@;
                    assert(s1 == s0.remove(i as int));
                    assert forall|j: int| 0 <= j < s1.len() implies #[trigger] s1[j] == s0[if j < i { j } else { j + 1 }] by {}
                    assert forall|a: int, b: int| 0 <= a < b < s1.len() implies #[trigger] s1[a].path@ != #[trigger] s1[b].path@ by {
                        let oa = if a < i { a } else { a + 1 };
                        let ob = if b < i { b } else { b + 1 };
                        assert(s1[a] == s0[oa] && s1[b] == s0[ob]);
                    }
                    lemma_entries_map(s1);
                    let m0 = entries_map(s0);
                    let m1 = entries_map(s1);
                    assert forall|key: Seq<char>| #[trigger] m1.dom().contains(key) <==> m0.remove(path@).dom().contains(key) by {
                        if m1.dom().contains(key) {
                            let a = choose|a: int| 0 <= a < s1.len() && s1[a].path@ == key;
                            let oa = if a < i { a } else { a + 1 };
                            assert(s1[a] == s0[oa]);
                            assert(oa != i);
                        }
                        if m0.remove(path@).dom().contains(key) {
                            let j = choose|j: int| 0 <= j < s0.len() && s0[j].path@ == key;
                            assert(j != i);
                            let a = if j < i { j } else { j - 1 };
                            assert(s1[a] == s0[j]);
                        }
                    }
                    assert forall|key: Seq<char>| #[trigger] m1.dom().contains(key) implies m1[key] == m0.remove(path@)[key] by {
                        let a = choose|a: int| 0 <= a < s1.len() && s1[a].path@ == key;
                        let oa = if a < i { a } else { a + 1 };
                        assert(s1[a] == s0[oa]);
                        assert(m1[s1[a].path@] == s1[a].state);
                        assert(m0[s0[oa].path@] == s0[oa].state);
                    }
                    assert(m1 =~= m0.remove(path@));
                }
            },
        }
    }
}

/// The ready paths of `pending`, in path order, each once.
pub fn files_ready_after_debounce(pending: &PendingWatches, now: u64, debounce: u64) -> (r: Vec<String>)
    requires
        pending.wf(),
    ensures
        sorted_paths(string_views(r@)),
        string_views(r@).no_duplicates(),
        forall|k: Seq<char>| #[trigger] string_views(r@).contains(k) <==> ready_set(pending@, now, debounce).contains(k),
{
    let ghost s0 = pending.entries@;
    proof {
        lemma_entries_map(s0);
    }
    let n = pending.entries.len();
    let mut out: Vec<String> = Vec::new();
    let mut i: usize = 0;
    while i < n
        invariant
            n == s0.len(),
            s0 == pending.entries@,
            keys_unique(s0),
            i <= n,
            string_views(out@).no_duplicates(),
            forall|k: Seq<char>| #[trigger] string_views(out@).contains(k) <==>
                exists|j: int| 0 <= j < i && s0[j].path@ == k && is_ready(s0[j].state, now, debounce),
        decreases n - i,
    {
        let st = pending.entries[i].state;
        let ready = match st.stable_since {
            Some(t) => st.last_size != 0 && (if now >= t { now - t >= debounce } else { 0 >= debounce }),
            None => false,
        };
        if ready {
            let ghost old_views = string_views(out@);
            let p = pending.entries[i].path.clone();
            out.push(p);
            proof {
                let nv = string_views(out@);
                assert(nv =~= old_views.push(s0[i as int].path@));
                assert(!old_views.contains(s0[i as int].path@)) by {
                    if old_views.contains(s0[i as int].path@) {
                        let j = choose|j: int| 0 <= j < i && s0[j].path@ == s0[i as int].path@ && is_ready(s0[j].state, now, debounce);
                    }
                }
                assert forall|k: Seq<char>| #[trigger] nv.contains(k) <==>
                    exists|j: int| 0 <= j < i + 1 && s0[j].path@ == k && is_ready(s0[j].state, now, debounce) by {
                    if nv.contains(k) {
                        let a = choose|a: int| 0 <= a < nv.len() && nv[a] == k;
                        if a < old_views.len() {
                            assert(old_views[a] == k);
                            assert(old_views.contains(k));
                        } else {
                            assert(s0[i as int].path@ == k);
                        }
                    }
                    if exists|j: int| 0 <= j < i + 1 && s0[j].path@ == k && is_ready(s0[j].state, now, debounce) {
                        let j = choose|j: int| 0 <= j < i + 1 && s0[j].path@ == k && is_ready(s0[j].state, now, debounce);
                        if j < i {
                            assert(old_views.contains(k));
                            let a = choose|a: int| 0 <= a < old_views.len() && old_views[a] == k;
                            assert(nv[a] == k);
                        } else {
                            assert(nv[old_views.len() as int] == k);
                        }
                    }
                }
            }
        } else {
            proof {
                let ov = string_views(out@);
                assert forall|k: Seq<char>| #[trigger] ov.contains(k) <==>
                    exists|j: int| 0 <= j < i + 1 && s0[j].path@ == k && is_ready(s0[j].state, now, debounce) by {
                    if exists|j: int| 0 <= j < i + 1 && s0[j].path@ == k && is_ready(s0[j].state, now, debounce) {
                        let j = choose|j: int| 0 <= j < i + 1 && s0[j].path@ == k && is_ready(s0[j].state, now, debounce);
                        assert(j != i);
                    }
                }
            }
        }
        i = i + 1;
    }
    let ghost before = string_views(out@);
    let sorted = sort_paths(out);
    proof {
        broadcast use vstd::seq_lib::group_to_multiset_ensures;
        let after = string_views(sorted@);
        before.lemma_multiset_has_no_duplicates();
        after.lemma_multiset_has_no_duplicates_conv();
        let m = pending@;
        assert forall|k: Seq<char>| #[trigger] after.contains(k) <==> ready_set(m, now, debounce).contains(k) by {
            assert(after.contains(k) <==> after.to_multiset().count(k) > 0);
            assert(before.contains(k) <==> before.to_multiset().count(k) > 0);
            if before.contains(k) {
                let j = choose|j: int| 0 <= j < n && s0[j].path@ == k && is_ready(s0[j].state, now, debounce);
                assert(m[s0[j].path@] == s0[j].state);
                assert(m.dom().contains(k));
            }
            if ready_set(m, now, debounce).contains(k) {
                assert(m.dom().contains(k));
                let j = choose|j: int| 0 <= j < s0.len() && s0[j].path@ == k;
                assert(m[s0[j].path@] == s0[j].state);
                assert(is_ready(s0[j].state, now, debounce));
            }
        }
    }
    sorted
}

/// Takes the ready files off `pending` and returns them in path order.
pub fn take_ready(pending: &mut PendingWatches, now: u64, debounce: u64) -> (r: Vec<String>)
    requires
        old(pending).wf(),
    ensures
        final(pending).wf(),
        sorted_paths(string_views(r@)),
        string_views(r@).no_duplicates(),
        forall|k: Seq<char>| #[trigger] string_views(r@).contains(k) <==> ready_set(old(pending)@, now, debounce).contains(k),
        final(pending)@ == old(pending)@.remove_keys(ready_set(old(pending)@, now, debounce)),
{
    let ready = files_ready_after_debounce(pending, now, debounce);
    let ghost m0 = pending@;
    let n = ready.len();
    let mut i: usize = 0;
    while i < n
        invariant
            n == ready@.len(),
            i <= n,
            pending.wf(),
            pending@ == m0.remove_keys(string_views(ready@).take(i as int).to_set()),
        decreases n - i,
    {
        let ghost before = pending@;
        pending.remove(ready[i].as_str());
        proof {
            let views = string_views(ready@);
            assert(views.take(i + 1) =~= views.take(i as int).push(views[i as int]));
            assert(views.take(i + 1).to_set() =~= views.take(i as int).to_set().insert(views[i as int])) by {
                broadcast use vstd::seq_lib::group_seq_properties;
            }
            assert(pending@ =~= m0.remove_keys(views.take(i + 1).to_set()));
        }
        i = i + 1;
    }
    proof {
        let views = string_views(ready@);
        assert(views.take(n as int) =~= views);
        assert(views.to_set() =~= ready_set(m0, now, debounce)) by {
            broadcast use vstd::seq_lib::group_seq_properties;
            assert forall|k: Seq<char>| views.to_set().contains(k) <==> #[trigger] ready_set(m0, now, debounce).contains(k) by {
                assert(views.contains(k) <==> ready_set(m0, now, debounce).contains(k));
            }
        }
    }
    ready
}

/// Whether a path is worth watching: an existing regular file with a media
/// extension.
pub fn is_media_watch_target(path: &str, is_file: bool) -> (r: bool)
    ensures
        r == (is_file && is_media_path(path@)),
{
    is_file && is_media_candidate(path)
}

/// Records that an event reported `path`, whose size on disk is `size`
/// (`None` when it could not be read), at time `now`.
pub fn note_watch_path(pending: &mut PendingWatches, path: &str, is_file: bool, size: Option<u64>, now: u64)
    requires
        old(pending).wf(),
    ensures
        final(pending).wf(),
        final(pending)@ == if is_file && is_media_path(path@) {
            old(pending)@.insert(
                path@,
                next_watch_state(old(pending)@.get(path@), match size { Some(v) => v, None => 0 }, now),
            )
        } else {
            old(pending)@
        },
{
    if !is_media_watch_target(path, is_file) {
        return;
    }
    let size: u64 = match size {
        Some(v) => v,
        None => 0,
    };
    let entry = match pending.get(path) {
        Some(w) => w,
        None => PendingWatch { last_size: size, stable_since: None },
    };
    let next = if entry.last_size != size {
        PendingWatch { last_size: size, stable_since: None }
    } else if size == 0 {
        PendingWatch { last_size: size, stable_since: None }
    } else if entry.stable_since.is_none() {
        PendingWatch { last_size: size, stable_since: Some(now) }
    } else {
        entry
    };
    pending.insert(path, next);
}

/// The kinds of file-system event the watcher can receive.
#[derive(Clone, Copy, PartialEq, Eq, Structural, Debug)]
pub enum WatchEventKind {
    Any,
    Access,
    Create,
    Modify,
    Remove,
    Other,
}

/// Whether an event of this kind can mean a new or growing file.
pub fn is_relevant_event(kind: WatchEventKind) -> (r: bool)
    ensures
        r == (kind == WatchEventKind::Create || kind == WatchEventKind::Modify || kind == WatchEventKind::Any),
{
    match kind {
        WatchEventKind::Create | WatchEventKind::Modify | WatchEventKind::Any => true,
        _ => false,
    }
}

/// How a watch runs: how long a file's size must hold before it is checked,
/// whether files are checked in parallel, and whether files already in the
/// folder are checked first.
#[derive(Clone, Copy, Debug)]
pub struct WatchOptions {
    pub debounce_ms: u64,
    pub parallel: bool,
    pub scan_existing: bool,
}

impl Default for WatchOptions {
    fn default() -> (r: Self)
        ensures
            r.debounce_ms == 5000,
            !r.parallel,
            !r.scan_existing,
    {
        WatchOptions { debounce_ms: 5000, parallel: false, scan_existing: false }
    }
}

/// Whole seconds in `ms` milliseconds, rounded to nearest with ties to even.
pub open spec fn rounded_secs(ms: u64) -> int {
    let q = ms / 1000;
    let r = ms % 1000;
    if r > 500 || (r == 500 && q % 2 == 1) {
        q + 1
    } else {
        q as int
    }
}

fn rounded_secs_exec(ms: u64) -> (r: u64)
    ensures
        r == rounded_secs(ms),
{
    let q = ms / 1000;
    let rem = ms % 1000;
    if rem > 500 || (rem == 500 && q % 2 == 1) {
        q + 1
    } else {
        q
    }
}

/// The message shown when a watch starts: "Watching {path} for media drops
/// ({label}: {names}, debounce: {secs}s)".
pub open spec fn watch_started_text(path: Seq<char>, label: Seq<char>, names: Seq<char>, debounce_ms: u64) -> Seq<char> {
    "Watching "@ + path + " for media drops ("@ + label + ": "@ + names + ", debounce: "@
        + crate::text::dec(rounded_secs(debounce_ms) as nat) + "s)"@
}

fn watch_started(path: &str, label: &str, names: &str, debounce_ms: u64) -> (r: String)
    ensures
        r@ == watch_started_text(path@, label@, names@, debounce_ms),
{
    let mut s = owned("Watching ");
    push_str(&mut s, path);
    push_str(&mut s, " for media drops (");
    push_str(&mut s, label);
    push_str(&mut s, ": ");
    push_str(&mut s, names);
    push_str(&mut s, ", debounce: ");
    let secs = decimal(rounded_secs_exec(debounce_ms));
    push_str(&mut s, secs.as_str());
    push_str(&mut s, "s)");
    s
}

/// The message shown when a single-profile watch starts.
pub fn watch_started_message(path: &str, profile_name: &str, debounce_ms: u64) -> (r: String)
    ensures
        r@ == watch_started_text(path@, "profile"@, profile_name@, debounce_ms),
{
    watch_started(path, "profile", profile_name, debounce_ms)
}

/// The message shown when a watch over several profiles starts; the names
/// are joined with ", ".
pub fn watch_started_message_multi(path: &str, profile_names: &Vec<String>, debounce_ms: u64) -> (r: String)
    ensures
        r@ == watch_started_text(path@, "profiles"@, crate::seqs::join(string_views(profile_names@), ", "@), debounce_ms),
{
    let label = crate::seqs::join_strings(profile_names, ", ");
    watch_started(path, "profiles", label.as_str(), debounce_ms)
}

/// The message shown when a file is ready to be checked.
pub fn export_ready_message(path: &str) -> (r: String)
    ensures
        r@ == "New export ready: "@ + path@,
{
    let mut s = owned("New export ready: ");
    push_str(&mut s, path);
    s
}

/// Why a watch cannot start.
#[derive(Clone, Debug)]
pub enum WatchSetupError {
    PathMissing(String),
    NotADirectory(String),
    ProfileNotFound(String),
    NoProfiles,
}

impl WatchSetupError {
    /// The error's message.
    pub fn message(&self) -> (r: String)
        ensures
            r@ == match self {
                WatchSetupError::PathMissing(p) => "watch path does not exist: "@ + p@,
                WatchSetupError::NotADirectory(p) => "watch path must be a directory: "@ + p@,
                WatchSetupError::ProfileNotFound(n) => "profile not found: "@ + n@,
                WatchSetupError::NoProfiles => "at least one profile is required"@,
            },
    {
        match self {
            WatchSetupError::PathMissing(p) => {
                let mut s = owned("watch path does not exist: ");
                push_str(&mut s, p.as_str());
                s
            },
            WatchSetupError::NotADirectory(p) => {
                let mut s = owned("watch path must be a directory: ");
                push_str(&mut s, p.as_str());
                s
            },
            WatchSetupError::ProfileNotFound(n) => {
                let mut s = owned("profile not found: ");
                push_str(&mut s, n.as_str());
                s
            },
            WatchSetupError::NoProfiles => owned("at least one profile is required"),
        }
    }
}

/// Checks the folder a watch is asked for: it must exist and be a directory.
pub fn check_watch_path(path: &str, exists: bool, is_dir: bool) -> (r: Result<(), WatchSetupError>)
    ensures
        match r {
            Ok(_) => exists && is_dir,
            Err(WatchSetupError::PathMissing(p)) => !exists && p@ == path@,
            Err(WatchSetupError::NotADirectory(p)) => exists && !is_dir && p@ == path@,
            Err(_) => false,
        },
{
    if !exists {
        return Err(WatchSetupError::PathMissing(owned(path)));
    }
    if !is_dir {
        return Err(WatchSetupError::NotADirectory(owned(path)));
    }
    Ok(())
}

/// An empty file is never ready, however long it has stood.
pub proof fn law_empty_files_never_ready(w: PendingWatch, now: u64, debounce: u64)
    requires
        w.last_size == 0,
    ensures
        !is_ready(w, now, debounce),
{
}

/// A non-empty file first seen at `seen` is ready exactly once the debounce
/// window has passed since then.
pub proof fn law_new_file_ready_after_window(size: u64, seen: u64, now: u64, debounce: u64)
    requires
        size > 0,
    ensures
        is_ready(next_watch_state(None, size, seen), now, debounce) <==> elapsed(now, seen) >= debounce,
{
}

/// A change of size restarts the wait: the file is not ready until its new
/// size is seen again.
pub proof fn law_size_change_restarts_wait(w: PendingWatch, size: u64, now: u64, later: u64, debounce: u64)
    requires
        w.last_size != size,
    ensures
        next_watch_state(Some(w), size, now).stable_since is None,
        !is_ready(next_watch_state(Some(w), size, now), later, debounce),
{
}

/// Seeing a file again at the size it settled on keeps the time it settled.
pub proof fn law_steady_size_keeps_clock(w: PendingWatch, now: u64)
    requires
        w.last_size > 0,
        w.stable_since is Some,
    ensures
        next_watch_state(Some(w), w.last_size, now) == w,
{
}

} // verus!
