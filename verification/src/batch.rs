use vstd::prelude::*;

use crate::config::{Profile, ProfileView};
use crate::paths::{file_name, file_name_chars};
use crate::report::FileReport;
use crate::seqs::{
    count_of, dedup, distinct_with_counts, join, join_chars, lemma_dedup_push,
    views,
};
use crate::text::{
    chars_of, dec, digit_char, lower_ascii, lower_ascii_exec, owned, push_char, push_chars,
    push_decimal, push_str, str_eq,
};
use crate::validate::{finding, finding_if, Finding, FindingView, Severity};

verus! {

/// What the batch-level checks need to know of one probed file.
#[derive(Debug, Clone)]
pub struct BatchProbeSnapshot {
    pub path: String,
    pub width: u32,
    pub height: u32,
    pub video_codec: String,
    pub file_size_bytes: u64,
}

/// The content of a snapshot.
pub struct SnapshotView {
    pub path: Seq<char>,
    pub width: u32,
    pub height: u32,
    pub video_codec: Seq<char>,
    pub file_size_bytes: u64,
}

impl View for BatchProbeSnapshot {
    type V = SnapshotView;

    open spec fn view(&self) -> SnapshotView {
        SnapshotView {
            path: self.path@,
            width: self.width,
            height: self.height,
            video_codec: self.video_codec@,
            file_size_bytes: self.file_size_bytes,
        }
    }
}

impl DeepView for BatchProbeSnapshot {
    type V = SnapshotView;

    open spec fn deep_view(&self) -> SnapshotView {
        self@
    }
}

/// One mebibyte.
pub const MIB: u64 = 1_048_576;

/// The file name of `path`, or `unknown`.
pub open spec fn basename_of(path: Seq<char>) -> Seq<char> {
    match file_name(path) {
        Some(n) => n,
        None => "unknown"@,
    }
}

/// `bytes` in mebibytes, in tenths, rounded to nearest with ties to even.
pub open spec fn mib_tenths(bytes: nat) -> nat {
    let q = (bytes * 10) / (MIB as nat);
    let r = (bytes * 10) % (MIB as nat);
    if 2 * r > MIB || (2 * r == MIB && q % 2 == 1) {
        q + 1
    } else {
        q
    }
}

/// A count of tenths printed with one decimal.
pub open spec fn tenths_text(t: nat) -> Seq<char> {
    dec(t / 10) + seq!['.', digit_char(t % 10)]
}

/// The size limit in bytes for a limit in mebibytes (saturating).
pub open spec fn limit_bytes(mb: u64) -> nat {
    if mb * MIB > u64::MAX {
        u64::MAX as nat
    } else {
        (mb * MIB) as nat
    }
}

/// The hygiene findings for one file: empty, or above the size limit.
pub open spec fn hygiene_one(s: SnapshotView, profile: ProfileView) -> Seq<FindingView> {
    let name = basename_of(s.path);
    finding_if(
        s.file_size_bytes == 0,
        finding("FILE_EMPTY"@, Severity::Fail, name + " is empty (0 bytes)"@),
    ) + match profile.max_file_size_mb {
        Some(mb) => finding_if(
            s.file_size_bytes > limit_bytes(mb),
            finding(
                "FILE_TOO_LARGE"@,
                Severity::Fail,
                name + " is "@ + tenths_text(mib_tenths(s.file_size_bytes as nat))
                    + " MB, above profile limit of "@ + dec(mb as nat) + " MB"@,
            ),
        ),
        None => Seq::empty(),
    }
}

/// The hygiene findings of a batch, file by file.
pub open spec fn hygiene_findings(snaps: Seq<SnapshotView>, profile: ProfileView) -> Seq<FindingView>
    decreases snaps.len(),
{
    if snaps.len() == 0 {
        Seq::empty()
    } else {
        hygiene_findings(snaps.drop_last(), profile) + hygiene_one(snaps.last(), profile)
    }
}

/// The lower-cased file names of a batch, for the files that have one.
pub open spec fn lowered_names(snaps: Seq<SnapshotView>) -> Seq<Seq<char>>
    decreases snaps.len(),
{
    if snaps.len() == 0 {
        Seq::empty()
    } else {
        lowered_names(snaps.drop_last()) + match file_name(snaps.last().path) {
            Some(n) => seq![lower_ascii(n)],
            None => Seq::empty(),
        }
    }
}

/// One finding per name of `distinct` that occurs more than once in `names`.
pub open spec fn duplicate_findings(distinct: Seq<Seq<char>>, names: Seq<Seq<char>>) -> Seq<
    FindingView,
>
    decreases distinct.len(),
{
    if distinct.len() == 0 {
        Seq::empty()
    } else {
        let name = distinct.last();
        let c = count_of(names, name);
        duplicate_findings(distinct.drop_last(), names) + finding_if(
            c > 1,
            finding(
                "DUPLICATE_BASENAME"@,
                Severity::Warn,
                dec(c) + " files share the basename "@ + name,
            ),
        )
    }
}

/// The findings for file names that occur more than once in a batch
/// (compared without ASCII case), in the order the names first occur.
pub open spec fn basename_findings(snaps: Seq<SnapshotView>) -> Seq<FindingView> {
    let names = lowered_names(snaps);
    duplicate_findings(dedup(names), names)
}

/// The files of a batch that were probed (non-zero width and height).
pub open spec fn probed(snaps: Seq<SnapshotView>) -> Seq<SnapshotView>
    decreases snaps.len(),
{
    if snaps.len() == 0 {
        Seq::empty()
    } else {
        probed(snaps.drop_last()) + if snaps.last().width > 0 && snaps.last().height > 0 {
            seq![snaps.last()]
        } else {
            Seq::empty()
        }
    }
}

/// The resolutions of the snapshots.
pub open spec fn resolutions(snaps: Seq<SnapshotView>) -> Seq<(u32, u32)> {
    snaps.map_values(|s: SnapshotView| (s.width, s.height))
}

/// A resolution as `WIDTHxHEIGHT`.
pub open spec fn resolution_label(r: (u32, u32)) -> Seq<char> {
    dec(r.0 as nat) + "x"@ + dec(r.1 as nat)
}

/// The known video codecs of the snapshots.
pub open spec fn known_codecs(snaps: Seq<SnapshotView>) -> Seq<Seq<char>>
    decreases snaps.len(),
{
    if snaps.len() == 0 {
        Seq::empty()
    } else {
        known_codecs(snaps.drop_last()) + if snaps.last().video_codec != "unknown"@ {
            seq![snaps.last().video_codec]
        } else {
            Seq::empty()
        }
    }
}

/// Warnings for a batch of two or more probed files that mixes
/// resolutions or known video codecs. Each lists the distinct values in
/// the order they first occur.
pub open spec fn mixed_spec_findings(snaps: Seq<SnapshotView>) -> Seq<FindingView> {
    let pr = probed(snaps);
    if pr.len() < 2 {
        Seq::empty()
    } else {
        let res = dedup(resolutions(pr));
        let codecs = dedup(known_codecs(pr));
        finding_if(
            res.len() > 1,
            finding(
                "BATCH_MIXED_RESOLUTION"@,
                Severity::Warn,
                "batch mixes resolutions: "@ + join(res.map_values(|r: (u32, u32)| resolution_label(r)), ", "@),
            ),
        ) + finding_if(
            codecs.len() > 1,
            finding(
                "BATCH_MIXED_CODEC"@,
                Severity::Warn,
                "batch mixes video codecs: "@ + join(codecs, ", "@),
            ),
        )
    }
}

/// All batch-level findings: hygiene, duplicate names, mixed specs.
pub open spec fn batch_findings(snaps: Seq<SnapshotView>, profile: ProfileView) -> Seq<FindingView> {
    hygiene_findings(snaps, profile) + basename_findings(snaps) + mixed_spec_findings(snaps)
}

/// The snapshot that a file report gives: missing sizes and dimensions
/// count as zero, a missing codec as `unknown`.
pub open spec fn snapshot_of_report(r: FileReport) -> SnapshotView {
    SnapshotView {
        path: r.path@,
        width: match r.width {
            Some(w) => w,
            None => 0,
        },
        height: match r.height {
            Some(h) => h,
            None => 0,
        },
        video_codec: match r.video_codec {
            Some(c) => c@,
            None => "unknown"@,
        },
        file_size_bytes: match r.file_size_bytes {
            Some(b) => b,
            None => 0,
        },
    }
}

/// The size of `bytes` in mebibytes with one decimal.
fn push_mib(s: &mut String, bytes: u64)
    ensures
        final(s)@ == old(s)@ + tenths_text(mib_tenths(bytes as nat)),
{
    let scaled: u128 = (bytes as u128) * 10;
    let q: u128 = scaled / (MIB as u128);
    let r: u128 = scaled % (MIB as u128);
    let t: u128 = if 2 * r > (MIB as u128) || (2 * r == (MIB as u128) && q % 2 == 1) {
        q + 1
    } else {
        q
    };
    assert(t == mib_tenths(bytes as nat));
    assert(t < 0x1_0000_0000_0000_0000) by (nonlinear_arith)
        requires
            t <= q + 1,
            q == scaled / 1048576,
            scaled == bytes * 10,
            bytes < 0x1_0000_0000_0000_0000,
    ;
    let ghost s0 = s@;
    let tt = t as u64;
    push_decimal(s, tt / 10);
    push_char(s, '.');
    let d = (tt % 10) as u8;
    push_char(s, (d + 48) as char);
    assert(s@ =~= s0 + tenths_text(mib_tenths(bytes as nat)));
}

/// The hygiene findings for one file.
fn hygiene_for(snapshot: &BatchProbeSnapshot, profile: &Profile) -> (out: Vec<Finding>)
    ensures
        out.deep_view() == hygiene_one(snapshot@, profile@),
{
    let mut out: Vec<Finding> = Vec::new();
    let name = {
        let p = chars_of(snapshot.path.as_str());
        match file_name_chars(p.as_slice()) {
            Some(n) => n,
            None => chars_of("unknown"),
        }
    };
    assert(name@ == basename_of(snapshot.path@));
    if snapshot.file_size_bytes == 0 {
        let mut msg = String::new();
        push_chars(&mut msg, name.as_slice());
        push_str(&mut msg, " is empty (0 bytes)");
        out.push(Finding::new("FILE_EMPTY", Severity::Fail, msg));
        assert(msg@ =~= name@ + " is empty (0 bytes)"@);
    }
    let ghost first = out.deep_view();
    match profile.max_file_size_mb {
        Some(max_mb) => {
            let max_bytes: u64 = if max_mb > u64::MAX / MIB {
                u64::MAX
            } else {
                max_mb * MIB
            };
            assert(max_bytes == limit_bytes(max_mb));
            if snapshot.file_size_bytes > max_bytes {
                let mut msg = String::new();
                push_chars(&mut msg, name.as_slice());
                push_str(&mut msg, " is ");
                push_mib(&mut msg, snapshot.file_size_bytes);
                push_str(&mut msg, " MB, above profile limit of ");
                push_decimal(&mut msg, max_mb);
                push_str(&mut msg, " MB");
                out.push(Finding::new("FILE_TOO_LARGE", Severity::Fail, msg));
                assert(out.deep_view() =~= first + seq![out@[out@.len() - 1]@]);
            } else {
                assert(out.deep_view() =~= first + Seq::<FindingView>::empty());
            }
        },
        None => {
            assert(out.deep_view() =~= first + Seq::<FindingView>::empty());
        },
    }
    out
}

/// Empty files and files above the profile's size limit.
pub fn check_file_hygiene(snapshots: &[BatchProbeSnapshot], profile: &Profile) -> (out: Vec<Finding>)
    ensures
        out.deep_view() == hygiene_findings(snapshots.deep_view(), profile@),
{
    let n = snapshots.len();
    let mut out: Vec<Finding> = Vec::new();
    let mut i: usize = 0;
    while i < n
        invariant
            n == snapshots@.len(),
            i <= n,
            out.deep_view() == hygiene_findings(snapshots.deep_view().take(i as int), profile@),
        decreases n - i,
    {
        let ghost pre = snapshots.deep_view().take(i as int);
        assert(snapshots.deep_view().take(i + 1).drop_last() =~= pre);
        let mut more = hygiene_for(&snapshots[i], profile);
        let ghost before = out.deep_view();
        let ghost added = more.deep_view();
        out.append(&mut more);
        assert(out.deep_view() =~= before + added);
        i = i + 1;
    }
    assert(snapshots.deep_view().take(n as int) =~= snapshots.deep_view());
    out
}

/// The lower-cased file names of the snapshots.
fn lowered_name_list(snapshots: &[BatchProbeSnapshot]) -> (out: Vec<Vec<char>>)
    ensures
        views(out@) == lowered_names(snapshots.deep_view()),
{
    let n = snapshots.len();
    let mut out: Vec<Vec<char>> = Vec::new();
    let mut i: usize = 0;
    while i < n
        invariant
            n == snapshots@.len(),
            i <= n,
            views(out@) == lowered_names(snapshots.deep_view().take(i as int)),
        decreases n - i,
    {
        let ghost pre = snapshots.deep_view().take(i as int);
        assert(snapshots.deep_view().take(i + 1).drop_last() =~= pre);
        let ghost before = views(out@);
        let p = chars_of(snapshots[i].path.as_str());
        match file_name_chars(p.as_slice()) {
            Some(name) => {
                out.push(lower_ascii_exec(name.as_slice()));
                assert(views(out@) =~= before + seq![views(out@).last()]);
            },
            None => {
                assert(views(out@) =~= before + Seq::<Seq<char>>::empty());
            },
        }
        i = i + 1;
    }
    assert(snapshots.deep_view().take(n as int) =~= snapshots.deep_view());
    out
}

/// Warnings for file names that occur more than once in the batch,
/// compared without ASCII case.
pub fn check_duplicate_basenames(snapshots: &[BatchProbeSnapshot]) -> (out: Vec<Finding>)
    ensures
        out.deep_view() == basename_findings(snapshots.deep_view()),
{
    let names = lowered_name_list(snapshots);
    let (distinct, counts) = distinct_with_counts(&names);
    let ghost all_names = views(names@);
    let n = distinct.len();
    let mut out: Vec<Finding> = Vec::new();
    let mut j: usize = 0;
    while j < n
        invariant
            n == distinct@.len(),
            counts@.len() == n,
            views(distinct@) == dedup(all_names),
            forall|k: int| 0 <= k < n ==> #[trigger] counts@[k] == count_of(all_names, distinct@[k]@),
            j <= n,
            out.deep_view() == duplicate_findings(views(distinct@).take(j as int), all_names),
        decreases n - j,
    {
        let ghost pre = views(distinct@).take(j as int);
        assert(views(distinct@).take(j + 1).drop_last() =~= pre);
        assert(views(distinct@).take(j + 1).last() == distinct@[j as int]@);
        let ghost before = out.deep_view();
        let c = counts[j];
        if c > 1 {
            let mut msg = String::new();
            push_decimal(&mut msg, c as u64);
            push_str(&mut msg, " files share the basename ");
            push_chars(&mut msg, distinct[j].as_slice());
            out.push(Finding::new("DUPLICATE_BASENAME", Severity::Warn, msg));
            assert(out.deep_view() =~= before + seq![out@[out@.len() - 1]@]);
        } else {
            assert(out.deep_view() =~= before + Seq::<FindingView>::empty());
        }
        j = j + 1;
    }
    assert(views(distinct@).take(n as int) =~= views(distinct@));
    out
}

/// The probed snapshots among `snapshots`.
fn probed_list(snapshots: &[BatchProbeSnapshot]) -> (out: Vec<BatchProbeSnapshot>)
    ensures
        out.deep_view() == probed(snapshots.deep_view()),
{
    let n = snapshots.len();
    let mut out: Vec<BatchProbeSnapshot> = Vec::new();
    let mut i: usize = 0;
    while i < n
        invariant
            n == snapshots@.len(),
            i <= n,
            out.deep_view() == probed(snapshots.deep_view().take(i as int)),
        decreases n - i,
    {
        let ghost pre = snapshots.deep_view().take(i as int);
        assert(snapshots.deep_view().take(i + 1).drop_last() =~= pre);
        let ghost before = out.deep_view();
        let s = &snapshots[i];
        if s.width > 0 && s.height > 0 {
            out.push(
                BatchProbeSnapshot {
                    path: s.path.clone(),
                    width: s.width,
                    height: s.height,
                    video_codec: s.video_codec.clone(),
                    file_size_bytes: s.file_size_bytes,
                },
            );
            assert(out.deep_view() =~= before + seq![snapshots@[i as int]@]);
        } else {
            assert(out.deep_view() =~= before + Seq::<SnapshotView>::empty());
        }
        i = i + 1;
    }
    assert(snapshots.deep_view().take(n as int) =~= snapshots.deep_view());
    out
}

/// The distinct resolutions of `snaps`, in first-occurrence order.
fn distinct_resolutions(snaps: &Vec<BatchProbeSnapshot>) -> (out: Vec<(u32, u32)>)
    ensures
        out@ == dedup(resolutions(snaps.deep_view())),
{
    let n = snaps.len();
    let mut out: Vec<(u32, u32)> = Vec::new();
    let mut i: usize = 0;
    while i < n
        invariant
            n == snaps@.len(),
            i <= n,
            out@ == dedup(resolutions(snaps.deep_view()).take(i as int)),
        decreases n - i,
    {
        let ghost pre = resolutions(snaps.deep_view()).take(i as int);
        let r = (snaps[i].width, snaps[i].height);
        proof {
            assert(resolutions(snaps.deep_view()).take(i + 1) =~= pre.push(r));
            lemma_dedup_push(pre, r);
        }
        let mut found = false;
        let mut k: usize = 0;
        while k < out.len()
            invariant
                k <= out@.len(),
                found == exists|j: int| 0 <= j < k && out@[j] == r,
            decreases out@.len() - k,
        {
            if out[k].0 == r.0 && out[k].1 == r.1 {
                found = true;
            }
            k = k + 1;
        }
        assert(found == out@.contains(r));
        if !found {
            out.push(r);
        }
        i = i + 1;
    }
    assert(resolutions(snaps.deep_view()).take(n as int) =~= resolutions(snaps.deep_view()));
    out
}

/// The known codecs of `snaps`.
fn known_codec_list(snaps: &Vec<BatchProbeSnapshot>) -> (out: Vec<Vec<char>>)
    ensures
        views(out@) == known_codecs(snaps.deep_view()),
{
    let n = snaps.len();
    let mut out: Vec<Vec<char>> = Vec::new();
    let mut i: usize = 0;
    while i < n
        invariant
            n == snaps@.len(),
            i <= n,
            views(out@) == known_codecs(snaps.deep_view().take(i as int)),
        decreases n - i,
    {
        let ghost pre = snaps.deep_view().take(i as int);
        assert(snaps.deep_view().take(i + 1).drop_last() =~= pre);
        let ghost before = views(out@);
        if !str_eq(snaps[i].video_codec.as_str(), "unknown") {
            out.push(chars_of(snaps[i].video_codec.as_str()));
            assert(views(out@) =~= before + seq![snaps@[i as int].video_codec@]);
        } else {
            assert(views(out@) =~= before + Seq::<Seq<char>>::empty());
        }
        i = i + 1;
    }
    assert(snaps.deep_view().take(n as int) =~= snaps.deep_view());
    out
}

/// Warnings for a batch that mixes resolutions or video codecs.
pub fn check_mixed_specs(snapshots: &[BatchProbeSnapshot]) -> (out: Vec<Finding>)
    ensures
        out.deep_view() == mixed_spec_findings(snapshots.deep_view()),
{
    let pr = probed_list(snapshots);
    if pr.len() < 2 {
        return Vec::new();
    }
    let mut out: Vec<Finding> = Vec::new();
    let res = distinct_resolutions(&pr);
    let ghost res_spec = dedup(resolutions(probed(snapshots.deep_view())));
    if res.len() > 1 {
        let mut labels: Vec<Vec<char>> = Vec::new();
        let mut k: usize = 0;
        while k < res.len()
            invariant
                res@ == res_spec,
                k <= res@.len(),
                views(labels@) == res_spec.take(k as int).map_values(
                    |r: (u32, u32)| resolution_label(r),
                ),
            decreases res@.len() - k,
        {
            let mut label = String::new();
            push_decimal(&mut label, res[k].0 as u64);
            push_str(&mut label, "x");
            push_decimal(&mut label, res[k].1 as u64);
            let ghost before = views(labels@);
            assert(label@ =~= resolution_label(res_spec[k as int]));
            labels.push(chars_of(label.as_str()));
            assert(views(labels@) =~= before.push(resolution_label(res_spec[k as int])));
            assert(views(labels@) =~= res_spec.take(k + 1).map_values(
                |r: (u32, u32)| resolution_label(r),
            ));
            k = k + 1;
        }
        assert(res_spec.take(res@.len() as int) =~= res_spec);
        let mut msg = owned("batch mixes resolutions: ");
        let joined = join_chars(&labels, ", ");
        push_str(&mut msg, joined.as_str());
        out.push(Finding::new("BATCH_MIXED_RESOLUTION", Severity::Warn, msg));
    }
    let ghost first = out.deep_view();
    let codec_list = known_codec_list(&pr);
    let (codecs, _counts) = distinct_with_counts(&codec_list);
    if codecs.len() > 1 {
        let mut msg = owned("batch mixes video codecs: ");
        let joined = join_chars(&codecs, ", ");
        push_str(&mut msg, joined.as_str());
        out.push(Finding::new("BATCH_MIXED_CODEC", Severity::Warn, msg));
        assert(out.deep_view() =~= first + seq![out@[out@.len() - 1]@]);
    } else {
        assert(out.deep_view() =~= first + Seq::<FindingView>::empty());
    }
    out
}

/// All batch-level findings for `snapshots`.
pub fn analyze_batch(snapshots: &[BatchProbeSnapshot], profile: &Profile) -> (out: Vec<Finding>)
    ensures
        out.deep_view() == batch_findings(snapshots.deep_view(), profile@),
{
    let mut findings = check_file_hygiene(snapshots, profile);
    let mut dups = check_duplicate_basenames(snapshots);
    let mut mixed = check_mixed_specs(snapshots);
    let ghost a = findings.deep_view();
    let ghost b = dups.deep_view();
    let ghost c = mixed.deep_view();
    findings.append(&mut dups);
    findings.append(&mut mixed);
    assert(findings.deep_view() =~= a + b + c);
    findings
}

/// All batch-level findings for the files of a batch report.
pub fn analyze_batch_from_reports(files: &[FileReport], profile: &Profile) -> (out: Vec<Finding>)
    ensures
        out.deep_view() == batch_findings(
            files@.map_values(|r: FileReport| snapshot_of_report(r)),
            profile@,
        ),
{
    let n = files.len();
    let mut snapshots: Vec<BatchProbeSnapshot> = Vec::new();
    let mut i: usize = 0;
    while i < n
        invariant
            n == files@.len(),
            i <= n,
            snapshots.deep_view() == files@.take(i as int).map_values(
                |r: FileReport| snapshot_of_report(r),
            ),
        decreases n - i,
    {
        let file = &files[i];
        let snapshot = BatchProbeSnapshot {
            path: file.path.clone(),
            width: match file.width {
                Some(w) => w,
                None => 0,
            },
            height: match file.height {
                Some(h) => h,
                None => 0,
            },
            video_codec: match &file.video_codec {
                Some(c) => c.clone(),
                None => owned("unknown"),
            },
            file_size_bytes: match file.file_size_bytes {
                Some(b) => b,
                None => 0,
            },
        };
        assert(snapshot@ == snapshot_of_report(files@[i as int]));
        let ghost before = snapshots.deep_view();
        snapshots.push(snapshot);
        assert(snapshots.deep_view() =~= before.push(snapshot_of_report(files@[i as int])));
        assert(snapshots.deep_view() =~= files@.take(i + 1).map_values(
            |r: FileReport| snapshot_of_report(r),
        ));
        i = i + 1;
    }
    assert(files@.take(n as int) =~= files@);
    analyze_batch(snapshots.as_slice(), profile)
}

/// Two probed files differ in resolution.
pub open spec fn mixes_resolutions(pr: Seq<SnapshotView>) -> bool {
    exists|i: int, j: int|
        0 <= i < pr.len() && 0 <= j < pr.len() && (#[trigger] pr[i].width, pr[i].height) != (
            #[trigger] pr[j].width,
            pr[j].height,
        )
}

/// Two probed files have different video codecs, neither of them
/// `unknown`.
pub open spec fn mixes_codecs(pr: Seq<SnapshotView>) -> bool {
    exists|i: int, j: int|
        0 <= i < pr.len() && 0 <= j < pr.len() && (#[trigger] pr[i]).video_codec != "unknown"@ && (
        #[trigger] pr[j]).video_codec != "unknown"@ && pr[i].video_codec != pr[j].video_codec
}

proof fn lemma_known_codecs(pr: Seq<SnapshotView>, c: Seq<char>)
    ensures
        known_codecs(pr).contains(c) <==> c != "unknown"@ && exists|i: int| 0 <= i < pr.len() && (#[trigger] pr[i]).video_codec == c,
    decreases pr.len(),
{
    if pr.len() > 0 {
        let t = pr.drop_last();
        lemma_known_codecs(t, c);
        let prev = known_codecs(t);
        let tail = if pr.last().video_codec != "unknown"@ { seq![pr.last().video_codec] } else { Seq::<Seq<char>>::empty() };
        assert(known_codecs(pr) == prev + tail);
        if known_codecs(pr).contains(c) {
            let k = choose|k: int| 0 <= k < (prev + tail).len() && (prev + tail)[k] == c;
            if k < prev.len() {
                assert(prev[k] == c);
                assert(prev.contains(c));
                let i = choose|i: int| 0 <= i < t.len() && (#[trigger] t[i]).video_codec == c;
                assert(pr[i] == t[i]);
            } else {
                assert(pr[pr.len() - 1].video_codec == c);
            }
        }
        if c != "unknown"@ && exists|i: int| 0 <= i < pr.len() && (#[trigger] pr[i]).video_codec == c {
            let i = choose|i: int| 0 <= i < pr.len() && (#[trigger] pr[i]).video_codec == c;
            if i < t.len() {
                assert(t[i] == pr[i]);
                assert(prev.contains(c));
                let k = choose|k: int| 0 <= k < prev.len() && prev[k] == c;
                assert((prev + tail)[k] == c);
            } else {
                assert((prev + tail)[prev.len() as int] == c);
            }
        }
    }
}

/// Mixed specifications are reported only for two or more probed files:
/// a resolution warning exactly when two of them differ in resolution,
/// then a codec warning exactly when two of them have different known
/// codecs; nothing else.
pub proof fn law_mixed_specs_warn_on_differences(snaps: Seq<SnapshotView>)
    ensures
        ({
            let pr = probed(snaps);
            let m = mixed_spec_findings(snaps);
            &&& pr.len() < 2 ==> m.len() == 0
            &&& pr.len() >= 2 ==> {
                &&& m.len() == (if mixes_resolutions(pr) { 1int } else { 0int }) + (if mixes_codecs(pr) {
                    1int
                } else {
                    0int
                })
                &&& mixes_resolutions(pr) ==> m[0].code == "BATCH_MIXED_RESOLUTION"@
                &&& mixes_codecs(pr) ==> m[m.len() - 1].code == "BATCH_MIXED_CODEC"@
                &&& forall|k: int| 0 <= k < m.len() ==> (#[trigger] m[k]).severity == Severity::Warn
            }
        }),
{
    let pr = probed(snaps);
    if pr.len() >= 2 {
        let rs = resolutions(pr);
        let kc = known_codecs(pr);
        crate::seqs::lemma_dedup_len_two(rs);
        crate::seqs::lemma_dedup_len_two(kc);
        if mixes_resolutions(pr) {
            let (i, j) = choose|i: int, j: int|
                0 <= i < pr.len() && 0 <= j < pr.len() && (#[trigger] pr[i].width, pr[i].height) != (
                    #[trigger] pr[j].width,
                    pr[j].height,
                );
            assert(rs[i] != rs[j]);
        }
        if exists|i: int, j: int| 0 <= i < rs.len() && 0 <= j < rs.len() && rs[i] != rs[j] {
            let (i, j) = choose|i: int, j: int| 0 <= i < rs.len() && 0 <= j < rs.len() && rs[i] != rs[j];
            assert(rs[i] == (pr[i].width, pr[i].height));
            assert(rs[j] == (pr[j].width, pr[j].height));
        }
        if mixes_codecs(pr) {
            let (i, j) = choose|i: int, j: int|
                0 <= i < pr.len() && 0 <= j < pr.len() && (#[trigger] pr[i]).video_codec != "unknown"@ && (
                #[trigger] pr[j]).video_codec != "unknown"@ && pr[i].video_codec != pr[j].video_codec;
            lemma_known_codecs(pr, pr[i].video_codec);
            lemma_known_codecs(pr, pr[j].video_codec);
            let a = choose|a: int| 0 <= a < kc.len() && kc[a] == pr[i].video_codec;
            let b = choose|b: int| 0 <= b < kc.len() && kc[b] == pr[j].video_codec;
            assert(kc[a] != kc[b]);
        }
        if exists|i: int, j: int| 0 <= i < kc.len() && 0 <= j < kc.len() && kc[i] != kc[j] {
            let (a, b) = choose|i: int, j: int| 0 <= i < kc.len() && 0 <= j < kc.len() && kc[i] != kc[j];
            assert(kc.contains(kc[a]) && kc.contains(kc[b]));
            lemma_known_codecs(pr, kc[a]);
            lemma_known_codecs(pr, kc[b]);
            let i = choose|i: int| 0 <= i < pr.len() && (#[trigger] pr[i]).video_codec == kc[a];
            let j = choose|j: int| 0 <= j < pr.len() && (#[trigger] pr[j]).video_codec == kc[b];
            assert(pr[i].video_codec != "unknown"@ && pr[j].video_codec != "unknown"@);
        }
        let m = mixed_spec_findings(snaps);
        reveal_strlit("BATCH_MIXED_RESOLUTION");
        reveal_strlit("BATCH_MIXED_CODEC");
    }
}

/// Every empty file of a batch is reported: for each snapshot of 0 bytes
/// the hygiene findings, and so the batch findings, hold a `FILE_EMPTY`
/// failure naming its file; and every `FILE_EMPTY` finding names a file
/// of 0 bytes.
pub proof fn law_empty_files_fail(snaps: Seq<SnapshotView>, profile: ProfileView)
    ensures
        forall|i: int|
            0 <= i < snaps.len() && (#[trigger] snaps[i]).file_size_bytes == 0 ==> {
                let f = FindingView {
                    code: "FILE_EMPTY"@,
                    severity: Severity::Fail,
                    message: basename_of(snaps[i].path) + " is empty (0 bytes)"@,
                };
                &&& hygiene_findings(snaps, profile).contains(f)
                &&& batch_findings(snaps, profile).contains(f)
            },
        forall|k: int|
            0 <= k < hygiene_findings(snaps, profile).len() && (#[trigger] hygiene_findings(snaps, profile)[k]).code
                == "FILE_EMPTY"@ ==> exists|i: int|
                0 <= i < snaps.len() && (#[trigger] snaps[i]).file_size_bytes == 0
                    && hygiene_findings(snaps, profile)[k].message == basename_of(snaps[i].path)
                    + " is empty (0 bytes)"@,
    decreases snaps.len(),
{
    reveal_strlit("FILE_EMPTY");
    reveal_strlit("FILE_TOO_LARGE");
    if snaps.len() > 0 {
        let t = snaps.drop_last();
        law_empty_files_fail(t, profile);
        let prev = hygiene_findings(t, profile);
        let last = snaps.last();
        let one = hygiene_one(last, profile);
        let all = hygiene_findings(snaps, profile);
        assert(all == prev + one);
        assert forall|i: int|
            0 <= i < snaps.len() && (#[trigger] snaps[i]).file_size_bytes == 0 implies {
                let f = FindingView {
                    code: "FILE_EMPTY"@,
                    severity: Severity::Fail,
                    message: basename_of(snaps[i].path) + " is empty (0 bytes)"@,
                };
                &&& all.contains(f)
                &&& batch_findings(snaps, profile).contains(f)
            } by {
            let f = FindingView {
                code: "FILE_EMPTY"@,
                severity: Severity::Fail,
                message: basename_of(snaps[i].path) + " is empty (0 bytes)"@,
            };
            if i < t.len() {
                assert(t[i] == snaps[i]);
                assert(prev.contains(f));
                let k = choose|k: int| 0 <= k < prev.len() && prev[k] == f;
                assert(all[k] == f);
            } else {
                assert(one[0] == f);
                assert(all[prev.len() as int] == f);
            }
            let k = choose|k: int| 0 <= k < all.len() && all[k] == f;
            let b = batch_findings(snaps, profile);
            assert(b == all + basename_findings(snaps) + mixed_spec_findings(snaps));
            assert(b[k] == f);
        }
        assert forall|k: int|
            0 <= k < all.len() && (#[trigger] all[k]).code == "FILE_EMPTY"@ implies exists|i: int|
                0 <= i < snaps.len() && (#[trigger] snaps[i]).file_size_bytes == 0 && all[k].message
                    == basename_of(snaps[i].path) + " is empty (0 bytes)"@ by {
            if k < prev.len() {
                assert(all[k] == prev[k]);
                let i = choose|i: int|
                    0 <= i < t.len() && (#[trigger] t[i]).file_size_bytes == 0 && prev[k].message
                        == basename_of(t[i].path) + " is empty (0 bytes)"@;
                assert(snaps[i] == t[i]);
            } else {
                let j = k - prev.len();
                assert(all[k] == one[j]);
                let n = snaps.len() - 1;
                assert(snaps[n] == last);
                if last.file_size_bytes == 0 {
                    if j == 0 {
                    } else {
                        assert(one[j].code == "FILE_TOO_LARGE"@);
                    }
                } else {
                    assert(one[j].code == "FILE_TOO_LARGE"@);
                }
            }
        }
    }
}

/// A file above the profile's size limit is reported as too large, once,
/// as a failure naming it; a file within the limit, or any file when the
/// profile sets no limit, is not.
pub proof fn law_oversized_files_fail(s: SnapshotView, profile: ProfileView)
    ensures
        ({
            let large = hygiene_one(s, profile).filter(|f: FindingView| f.code == "FILE_TOO_LARGE"@);
            let over = match profile.max_file_size_mb {
                Some(mb) => s.file_size_bytes > limit_bytes(mb),
                None => false,
            };
            &&& over ==> large.len() == 1 && large[0].severity == Severity::Fail && large[0].message.take(
                basename_of(s.path).len() as int,
            ) == basename_of(s.path)
            &&& !over ==> large.len() == 0
        }),
{
    reveal_strlit("FILE_EMPTY");
    reveal_strlit("FILE_TOO_LARGE");
    reveal(Seq::filter);
    let pred = |f: FindingView| f.code == "FILE_TOO_LARGE"@;
    let name = basename_of(s.path);
    let a = finding_if(s.file_size_bytes == 0, finding("FILE_EMPTY"@, Severity::Fail, name + " is empty (0 bytes)"@));
    let b = match profile.max_file_size_mb {
        Some(mb) => finding_if(
            s.file_size_bytes > limit_bytes(mb),
            finding(
                "FILE_TOO_LARGE"@,
                Severity::Fail,
                name + " is "@ + tenths_text(mib_tenths(s.file_size_bytes as nat)) + " MB, above profile limit of "@
                    + dec(mb as nat) + " MB"@,
            ),
        ),
        None => Seq::empty(),
    };
    assert(hygiene_one(s, profile) == a + b);
    Seq::filter_distributes_over_add(a, b, pred);
    assert(Seq::<FindingView>::empty().filter(pred) =~= Seq::<FindingView>::empty());
    if a.len() > 0 {
        assert(a.drop_last() =~= Seq::<FindingView>::empty());
        assert(a.last() == a[0]);
        assert(a[0].code == "FILE_EMPTY"@);
        assert("FILE_EMPTY"@.len() != "FILE_TOO_LARGE"@.len());
        assert(!pred(a.last()));
        assert(a.filter(pred) =~= Seq::<FindingView>::empty());
    } else {
        assert(a =~= Seq::<FindingView>::empty());
    }
    if b.len() > 0 {
        assert(b.drop_last() =~= Seq::<FindingView>::empty());
        assert(pred(b.last()));
        assert(b.filter(pred) =~= b);
        let m = b[0].message;
        assert(m.take(name.len() as int) =~= name);
    } else {
        assert(b =~= Seq::<FindingView>::empty());
    }
}

} // verus!
