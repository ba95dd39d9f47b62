use vstd::prelude::*;

use crate::batch::basename_of;
use crate::config::{Profile, ProfileView};
use crate::paths::{dir_prefix, dir_prefix_chars, file_name_chars, file_stem, file_stem_chars};
use crate::seqs::string_views;
use crate::text::{chars_eq, chars_of, owned, push_char, push_chars, push_str};
use crate::validate::{finding, finding_if, Finding, FindingView, Severity};

verus! {

/// A video and the sidecar files delivered with it.
#[derive(Debug, Clone, PartialEq, Eq)]
pub struct DeliveryPackage {
    pub video: String,
    pub captions: Option<String>,
    pub thumbnail: Option<String>,
}

/// The sibling of `video` with the same stem and extension `ext`
/// (`ext` includes the dot).
pub open spec fn sibling(video: Seq<char>, ext: Seq<char>) -> Seq<char> {
    let stem = match file_stem(video) {
        Some(s) => s,
        None => Seq::empty(),
    };
    dir_prefix(video) + stem + ext
}

/// The first of the siblings of `video` with extensions `first` and
/// `second` that is among `existing`.
pub open spec fn first_existing(
    video: Seq<char>,
    first: Seq<char>,
    second: Seq<char>,
    existing: Seq<Seq<char>>,
) -> Option<Seq<char>> {
    if existing.contains(sibling(video, first)) {
        Some(sibling(video, first))
    } else if existing.contains(sibling(video, second)) {
        Some(sibling(video, second))
    } else {
        None
    }
}

/// The package of `video`: its captions (`.srt`, else `.vtt`) and
/// thumbnail (`.jpg`, else `.png`) siblings, where they exist.
pub open spec fn package_of(video: Seq<char>, existing: Seq<Seq<char>>) -> (
    Seq<char>,
    Option<Seq<char>>,
    Option<Seq<char>>,
) {
    (
        video,
        first_existing(video, ".srt"@, ".vtt"@, existing),
        first_existing(video, ".jpg"@, ".png"@, existing),
    )
}

/// The view of a package.
pub open spec fn package_view(p: DeliveryPackage) -> (Seq<char>, Option<Seq<char>>, Option<Seq<char>>) {
    (
        p.video@,
        match p.captions {
            Some(c) => Some(c@),
            None => None,
        },
        match p.thumbnail {
            Some(t) => Some(t@),
            None => None,
        },
    )
}

/// The sibling of `video` with extension `ext`.
pub fn sibling_path(video: &str, ext: &str) -> (out: String)
    ensures
        out@ == sibling(video@, ext@),
{
    let v = chars_of(video);
    let mut out = String::new();
    let prefix = dir_prefix_chars(v.as_slice());
    push_chars(&mut out, prefix.as_slice());
    match file_stem_chars(v.as_slice()) {
        Some(stem) => push_chars(&mut out, stem.as_slice()),
        None => {},
    }
    push_str(&mut out, ext);
    assert(out@ =~= sibling(video@, ext@));
    out
}

/// The sidecar paths whose existence decides the package of `video`:
/// the `.srt`, `.vtt`, `.jpg` and `.png` siblings, in that order.
pub fn sidecar_candidates(video: &str) -> (out: Vec<String>)
    ensures
        string_views(out@) == seq![
            sibling(video@, ".srt"@),
            sibling(video@, ".vtt"@),
            sibling(video@, ".jpg"@),
            sibling(video@, ".png"@),
        ],
{
    let mut out: Vec<String> = Vec::new();
    out.push(sibling_path(video, ".srt"));
    out.push(sibling_path(video, ".vtt"));
    out.push(sibling_path(video, ".jpg"));
    out.push(sibling_path(video, ".png"));
    assert(string_views(out@) =~= seq![
        sibling(video@, ".srt"@),
        sibling(video@, ".vtt"@),
        sibling(video@, ".jpg"@),
        sibling(video@, ".png"@),
    ]);
    out
}

/// Whether `path` is among `existing`.
fn is_listed(existing: &[String], path: &String) -> (r: bool)
    ensures
        r == string_views(existing@).contains(path@),
{
    let n = existing.len();
    let mut i: usize = 0;
    while i < n
        invariant
            n == existing@.len(),
            i <= n,
            forall|j: int| 0 <= j < i ==> existing@[j]@ != path@,
        decreases n - i,
    {
        if existing[i] == *path {
            assert(string_views(existing@)[i as int] == path@);
            return true;
        }
        i = i + 1;
    }
    assert forall|j: int|
        0 <= j < string_views(existing@).len() implies #[trigger] string_views(existing@)[j] != path@ by {
        assert(string_views(existing@)[j] == existing@[j]@);
    }
    false
}

/// The first existing sibling of `video` among two extensions.
fn find_sidecar(video: &str, first: &str, second: &str, existing: &[String]) -> (r: Option<String>)
    ensures
        match r {
            Some(p) => first_existing(
                video@,
                first@,
                second@,
                string_views(existing@),
            ) == Some(p@),
            None => first_existing(
                video@,
                first@,
                second@,
                string_views(existing@),
            ) is None,
        },
{
    let a = sibling_path(video, first);
    if is_listed(existing, &a) {
        return Some(a);
    }
    let b = sibling_path(video, second);
    if is_listed(existing, &b) {
        return Some(b);
    }
    None
}

/// Pairs each video with the captions and thumbnail siblings among
/// `existing` (the sidecar paths known to be files).
pub fn discover_packages(media_files: &[String], existing: &[String]) -> (out: Vec<DeliveryPackage>)
    ensures
        out@.len() == media_files@.len(),
        forall|k: int|
            0 <= k < out@.len() ==> package_view(#[trigger] out@[k]) == package_of(
                media_files@[k]@,
                string_views(existing@),
            ),
{
    let n = media_files.len();
    let mut out: Vec<DeliveryPackage> = Vec::new();
    let mut i: usize = 0;
    while i < n
        invariant
            n == media_files@.len(),
            i <= n,
            out@.len() == i,
            forall|k: int|
                0 <= k < i ==> package_view(#[trigger] out@[k]) == package_of(
                    media_files@[k]@,
                    string_views(existing@),
                ),
        decreases n - i,
    {
        let video = media_files[i].as_str();
        let captions = find_sidecar(video, ".srt", ".vtt", existing);
        let thumbnail = find_sidecar(video, ".jpg", ".png", existing);
        out.push(DeliveryPackage { video: media_files[i].clone(), captions, thumbnail });
        i = i + 1;
    }
    out
}

/// The `{:?}` rendering of one character inside a quoted string.
pub open spec fn escape_char(c: char) -> Seq<char> {
    if c == '"' {
        seq!['\\', '"']
    } else if c == '\\' {
        seq!['\\', '\\']
    } else if c == '\n' {
        seq!['\\', 'n']
    } else if c == '\r' {
        seq!['\\', 'r']
    } else if c == '\t' {
        seq!['\\', 't']
    } else if c == '\0' {
        seq!['\\', '0']
    } else {
        seq![c]
    }
}

/// The characters of `s`, escaped.
pub open spec fn escaped(s: Seq<char>) -> Seq<char>
    decreases s.len(),
{
    if s.len() == 0 {
        Seq::empty()
    } else {
        escaped(s.drop_last()) + escape_char(s.last())
    }
}

/// `s` as `{:?}` renders a string: quoted, with quotes, backslashes and
/// the common control characters escaped.
pub open spec fn quoted(s: Seq<char>) -> Seq<char> {
    seq!['"'] + escaped(s) + seq!['"']
}

/// An optional string as `{:?}` renders it.
pub open spec fn debug_option(s: Option<Seq<char>>) -> Seq<char> {
    match s {
        Some(x) => "Some("@ + quoted(x) + ")"@,
        None => "None"@,
    }
}

/// Appends `s`, quoted and escaped.
fn push_quoted(out: &mut String, s: &[char])
    ensures
        final(out)@ == old(out)@ + quoted(s@),
{
    let ghost o = out@;
    push_char(out, '"');
    let n = s.len();
    let mut i: usize = 0;
    while i < n
        invariant
            n == s@.len(),
            i <= n,
            out@ == o + seq!['"'] + escaped(s@.take(i as int)),
        decreases n - i,
    {
        let c = s[i];
        let ghost before = out@;
        if c == '"' {
            push_char(out, '\\');
            push_char(out, '"');
        } else if c == '\\' {
            push_char(out, '\\');
            push_char(out, '\\');
        } else if c == '\n' {
            push_char(out, '\\');
            push_char(out, 'n');
        } else if c == '\r' {
            push_char(out, '\\');
            push_char(out, 'r');
        } else if c == '\t' {
            push_char(out, '\\');
            push_char(out, 't');
        } else if c == '\0' {
            push_char(out, '\\');
            push_char(out, '0');
        } else {
            push_char(out, c);
        }
        assert(s@.take(i + 1).drop_last() =~= s@.take(i as int));
        assert(out@ =~= before + escape_char(c));
        i = i + 1;
    }
    assert(s@.take(n as int) =~= s@);
    push_char(out, '"');
    assert(out@ =~= o + quoted(s@));
}

/// The package findings for `package`: missing required sidecars, and
/// captions whose stem differs from the video's.
pub open spec fn package_findings(
    video: Seq<char>,
    captions: Option<Seq<char>>,
    thumbnail: Option<Seq<char>>,
    profile: ProfileView,
) -> Seq<FindingView> {
    let name = basename_of(video);
    finding_if(
        profile.require_captions && captions is None,
        finding("CAPTIONS_MISSING"@, Severity::Fail, "expected captions sidecar for "@ + name),
    ) + finding_if(
        profile.require_thumbnail && thumbnail is None,
        finding("THUMBNAIL_MISSING"@, Severity::Fail, "expected thumbnail sidecar for "@ + name),
    ) + match (captions, file_stem(video)) {
        (Some(c), Some(vs)) => finding_if(
            file_stem(c) != Some(vs),
            finding(
                "CAPTIONS_NAME_MISMATCH"@,
                Severity::Fail,
                "captions basename "@ + debug_option(file_stem(c)) + " does not match video "@
                    + quoted(vs),
            ),
        ),
        _ => Seq::empty(),
    }
}

/// Checks that a delivery package holds the sidecars the profile requires.
pub fn validate_package(package: &DeliveryPackage, profile: &Profile) -> (out: Vec<Finding>)
    ensures
        out.deep_view() == package_findings(
            package_view(*package).0,
            package_view(*package).1,
            package_view(*package).2,
            profile@,
        ),
{
    let ghost pv = package_view(*package);
    let mut findings: Vec<Finding> = Vec::new();
    let v = chars_of(package.video.as_str());
    let name = match file_name_chars(v.as_slice()) {
        Some(n) => n,
        None => chars_of("unknown"),
    };
    assert(name@ == basename_of(package.video@));
    if profile.require_captions && package.captions.is_none() {
        let mut msg = owned("expected captions sidecar for ");
        push_chars(&mut msg, name.as_slice());
        findings.push(Finding::new("CAPTIONS_MISSING", Severity::Fail, msg));
    }
    let ghost f1 = findings.deep_view();
    if profile.require_thumbnail && package.thumbnail.is_none() {
        let mut msg = owned("expected thumbnail sidecar for ");
        push_chars(&mut msg, name.as_slice());
        findings.push(Finding::new("THUMBNAIL_MISSING", Severity::Fail, msg));
    }
    let ghost f2 = findings.deep_view();
    assert(f2 =~= finding_if(
        profile.require_captions && pv.1 is None,
        finding("CAPTIONS_MISSING"@, Severity::Fail, "expected captions sidecar for "@ + name@),
    ) + finding_if(
        profile.require_thumbnail && pv.2 is None,
        finding("THUMBNAIL_MISSING"@, Severity::Fail, "expected thumbnail sidecar for "@ + name@),
    ));
    match (&package.captions, file_stem_chars(v.as_slice())) {
        (Some(c), Some(vs)) => {
            let cv = chars_of(c.as_str());
            let cs = file_stem_chars(cv.as_slice());
            let same = match &cs {
                Some(x) => chars_eq(x.as_slice(), vs.as_slice()),
                None => false,
            };
            if !same {
                let mut msg = owned("captions basename ");
                match &cs {
                    Some(x) => {
                        push_str(&mut msg, "Some(");
                        push_quoted(&mut msg, x.as_slice());
                        push_str(&mut msg, ")");
                    },
                    None => push_str(&mut msg, "None"),
                }
                push_str(&mut msg, " does not match video ");
                push_quoted(&mut msg, vs.as_slice());
                assert(msg@ =~= "captions basename "@ + debug_option(file_stem(c@)) + " does not match video "@ + quoted(vs@));
                findings.push(Finding::new("CAPTIONS_NAME_MISMATCH", Severity::Fail, msg));
                assert(findings.deep_view() =~= f2 + seq![findings@[findings@.len() - 1]@]);
            } else {
                assert(findings.deep_view() =~= f2 + Seq::<FindingView>::empty());
            }
        },
        _ => {
            assert(findings.deep_view() =~= f2 + Seq::<FindingView>::empty());
        },
    }
    findings
}

proof fn lemma_last_index_of_append(a: Seq<char>, b: Seq<char>, c: char)
    requires
        forall|j: int| 0 <= j < b.len() ==> b[j] != c,
    ensures
        crate::paths::last_index_of(a + b, c) == crate::paths::last_index_of(a, c),
    decreases b.len(),
{
    if b.len() == 0 {
        assert(a + b =~= a);
    } else {
        assert((a + b).drop_last() =~= a + b.drop_last());
        assert((a + b).last() == b.last());
        lemma_last_index_of_append(a, b.drop_last(), c);
    }
}

/// The sidecar of `video` with extension `ext` lies in the same folder:
/// its text up to the last separator is that of `video`, and what follows
/// is the video's file stem with `ext` appended.
pub proof fn law_sidecar_is_a_sibling(video: Seq<char>, ext: Seq<char>)
    requires
        forall|j: int| 0 <= j < ext.len() ==> ext[j] != '/',
    ensures
        dir_prefix(sibling(video, ext)) == dir_prefix(video),
        sibling(video, ext).skip(dir_prefix(video).len() as int) == match file_stem(video) {
            Some(stem) => stem,
            None => Seq::<char>::empty(),
        } + ext,
{
    crate::paths::lemma_last_index_of(video, '/');
    let l = crate::paths::last_index_of(video, '/');
    let pre = dir_prefix(video);
    let stem = match file_stem(video) {
        Some(st) => st,
        None => Seq::<char>::empty(),
    };
    let name = video.skip(l + 1);
    assert forall|j: int| 0 <= j < name.len() implies name[j] != '/' by {
        assert(name[j] == video[l + 1 + j]);
    }
    crate::paths::lemma_last_index_of(name, '.');
    assert forall|j: int| 0 <= j < stem.len() implies stem[j] != '/' by {
        if file_stem(video) is Some {
            let d = crate::paths::last_index_of(name, '.');
            if d > 0 {
                assert(stem == name.take(d));
            } else {
                assert(stem == name);
            }
            assert(stem[j] == name[j]);
        }
    }
    let rest = stem + ext;
    assert forall|j: int| 0 <= j < rest.len() implies rest[j] != '/' by {
        if j < stem.len() {
            assert(rest[j] == stem[j]);
        } else {
            assert(rest[j] == ext[j - stem.len()]);
        }
    }
    assert(sibling(video, ext) == pre + rest);
    lemma_last_index_of_append(pre, rest, '/');
    if l >= 0 {
        assert(pre.last() == '/');
        assert(crate::paths::last_index_of(pre, '/') == l);
    } else {
        assert(pre =~= Seq::<char>::empty());
    }
    assert((pre + rest).take(l + 1) =~= pre);
    assert((pre + rest).skip(pre.len() as int) =~= rest);
}

} // verus!
