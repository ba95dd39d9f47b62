use vstd::prelude::*;

use crate::config::Profile;
use crate::metadata::MediaMetadata;
use crate::paths::{extension, extension_chars};
use crate::text::{
    chars_of, dec, eq_ignore_ascii_case, eq_ignore_ascii_case_exec, owned, push_chars,
    push_decimal, push_signed_fixed2_ns, push_str, signed_fixed2_ns,
};
use crate::float_text::Reading;

verus! {

/// How serious a finding is.
#[derive(Debug, Clone, Copy, PartialEq, Eq, Structural)]
pub enum Severity {
    Warn,
    Fail,
}

/// The outcome of checking a file or a batch.
#[derive(Debug, Clone, Copy, PartialEq, Eq, Structural)]
pub enum Status {
    Pass,
    Warn,
    Fail,
}

/// One structured problem found by a check.
#[derive(Debug, Clone, PartialEq, Eq)]
pub struct Finding {
    pub code: String,
    pub severity: Severity,
    pub message: String,
}

/// The content of a finding.
pub struct FindingView {
    pub code: Seq<char>,
    pub severity: Severity,
    pub message: Seq<char>,
}

impl View for Finding {
    type V = FindingView;

    open spec fn view(&self) -> FindingView {
        FindingView { code: self.code@, severity: self.severity, message: self.message@ }
    }
}

impl DeepView for Finding {
    type V = FindingView;

    open spec fn deep_view(&self) -> FindingView {
        self@
    }
}

impl Finding {
    /// A finding with the given code, severity and message.
    pub fn new(code: &str, severity: Severity, message: String) -> (f: Finding)
        ensures
            f@ == (FindingView { code: code@, severity: severity, message: message@ }),
    {
        Finding { code: owned(code), severity, message }
    }

    /// A copy of this finding.
    pub fn duplicate(&self) -> (f: Finding)
        ensures
            f@ == self@,
    {
        Finding { code: self.code.clone(), severity: self.severity, message: self.message.clone() }
    }
}

/// Findings together with the status they imply.
#[derive(Debug, Clone, PartialEq, Eq)]
pub struct ValidationResult {
    pub findings: Vec<Finding>,
    pub status: Status,
}

/// Some finding has severity `sev`.
pub open spec fn has_severity(findings: Seq<FindingView>, sev: Severity) -> bool {
    exists|i: int| 0 <= i < findings.len() && #[trigger] findings[i].severity == sev
}

/// The status that a list of findings implies: `Fail` if any finding fails,
/// else `Warn` if any warns, else `Pass`.
pub open spec fn status_of(findings: Seq<FindingView>) -> Status {
    if has_severity(findings, Severity::Fail) {
        Status::Fail
    } else if has_severity(findings, Severity::Warn) {
        Status::Warn
    } else {
        Status::Pass
    }
}

/// Whether some finding has severity `sev`.
pub fn any_with_severity(findings: &[Finding], sev: Severity) -> (r: bool)
    ensures
        r == has_severity(findings.deep_view(), sev),
{
    let n = findings.len();
    let mut i: usize = 0;
    while i < n
        invariant
            n == findings@.len(),
            i <= n,
            forall|j: int| 0 <= j < i ==> findings@[j].severity != sev,
        decreases n - i,
    {
        if findings[i].severity == sev {
            assert(findings.deep_view()[i as int].severity == sev);
            return true;
        }
        i = i + 1;
    }
    assert forall|j: int| 0 <= j < findings.deep_view().len() implies #[trigger] findings.deep_view()[j].severity != sev by {
        assert(findings.deep_view()[j] == findings@[j]@);
    }
    false
}

/// The status implied by `findings`.
pub fn status_from_findings(findings: &[Finding]) -> (s: Status)
    ensures
        s == status_of(findings.deep_view()),
{
    if any_with_severity(findings, Severity::Fail) {
        Status::Fail
    } else if any_with_severity(findings, Severity::Warn) {
        Status::Warn
    } else {
        Status::Pass
    }
}

impl ValidationResult {
    /// Pairs `findings` with the status they imply.
    pub fn from_findings(findings: Vec<Finding>) -> (r: ValidationResult)
        ensures
            r.findings == findings,
            r.status == status_of(findings.deep_view()),
    {
        let status = status_from_findings(findings.as_slice());
        ValidationResult { findings, status }
    }
}

/// The extension of `path`, or the empty text.
pub open spec fn extension_or_empty(path: Seq<char>) -> Seq<char> {
    match extension(path) {
        Some(e) => e,
        None => Seq::empty(),
    }
}

/// A finding with the given parts.
pub open spec fn finding(code: Seq<char>, severity: Severity, message: Seq<char>) -> FindingView {
    FindingView { code, severity, message }
}

/// The one-element list `[f]` when `cond` holds, else the empty list.
pub open spec fn finding_if(cond: bool, f: FindingView) -> Seq<FindingView> {
    if cond {
        seq![f]
    } else {
        Seq::empty()
    }
}

/// A duration is shorter than the minimum `min` (both in nanoseconds);
/// where either is not a number, it is not.
pub open spec fn shorter_than(d: Reading, min: Reading) -> bool {
    match (d, min) {
        (Reading::Value(v), Reading::Value(m)) => v < m,
        _ => false,
    }
}

/// The count of nanoseconds of a duration that is a number.
pub open spec fn duration_value(d: Reading) -> int {
    match d {
        Reading::Value(v) => v as int,
        Reading::NotANumber => 0,
    }
}

/// The findings of checking `metadata` of the file at `path` against
/// `profile`, in order: container extension, resolution, audio, duration.
pub open spec fn validation_findings(
    path: Seq<char>,
    metadata: MediaMetadata,
    profile: Profile,
) -> Seq<FindingView> {
    let ext = extension_or_empty(path);
    finding_if(
        !eq_ignore_ascii_case(ext, profile.extension@),
        finding(
            "EXTENSION_MISMATCH"@,
            Severity::Fail,
            "expected ."@ + profile.extension@ + ", got ."@ + ext,
        ),
    ) + finding_if(
        metadata.width != profile.width || metadata.height != profile.height,
        finding(
            "RESOLUTION_MISMATCH"@,
            Severity::Fail,
            "expected "@ + dec(profile.width as nat) + "x"@ + dec(profile.height as nat) + ", got "@
                + dec(metadata.width as nat) + "x"@ + dec(metadata.height as nat),
        ),
    ) + finding_if(
        profile.require_audio && !metadata.has_audio,
        finding("AUDIO_REQUIRED"@, Severity::Fail, "profile requires an audio track"@),
    ) + finding_if(
        shorter_than(metadata.duration_ns, profile.min_duration_ns),
        finding(
            "DURATION_TOO_SHORT"@,
            Severity::Fail,
            "duration "@ + signed_fixed2_ns(duration_value(metadata.duration_ns))
                + "s is below minimum "@ + signed_fixed2_ns(duration_value(profile.min_duration_ns))
                + "s"@,
        ),
    )
}

/// Checks the probed `metadata` of the file at `path` against `profile`.
pub fn validate(path: &str, metadata: &MediaMetadata, profile: &Profile) -> (r: ValidationResult)
    ensures
        r.findings.deep_view() == validation_findings(path@, *metadata, *profile),
        r.status == status_of(validation_findings(path@, *metadata, *profile)),
{
    let ghost spec_findings = validation_findings(path@, *metadata, *profile);
    let mut findings: Vec<Finding> = Vec::new();
    let p = chars_of(path);
    let ext: Vec<char> = match extension_chars(p.as_slice()) {
        Some(e) => e,
        None => Vec::new(),
    };
    assert(ext@ == extension_or_empty(path@));
    let want = chars_of(profile.extension.as_str());
    let ghost f1 = finding_if(
        !eq_ignore_ascii_case(ext@, profile.extension@),
        finding(
            "EXTENSION_MISMATCH"@,
            Severity::Fail,
            "expected ."@ + profile.extension@ + ", got ."@ + ext@,
        ),
    );
    if !eq_ignore_ascii_case_exec(ext.as_slice(), want.as_slice()) {
        let mut msg = owned("expected .");
        push_str(&mut msg, profile.extension.as_str());
        push_str(&mut msg, ", got .");
        push_chars(&mut msg, ext.as_slice());
        findings.push(Finding::new("EXTENSION_MISMATCH", Severity::Fail, msg));
    }
    assert(findings.deep_view() =~= f1);
    let ghost f2 = finding_if(
        metadata.width != profile.width || metadata.height != profile.height,
        finding(
            "RESOLUTION_MISMATCH"@,
            Severity::Fail,
            "expected "@ + dec(profile.width as nat) + "x"@ + dec(profile.height as nat) + ", got "@
                + dec(metadata.width as nat) + "x"@ + dec(metadata.height as nat),
        ),
    );
    if metadata.width != profile.width || metadata.height != profile.height {
        let mut msg = owned("expected ");
        push_decimal(&mut msg, profile.width as u64);
        push_str(&mut msg, "x");
        push_decimal(&mut msg, profile.height as u64);
        push_str(&mut msg, ", got ");
        push_decimal(&mut msg, metadata.width as u64);
        push_str(&mut msg, "x");
        push_decimal(&mut msg, metadata.height as u64);
        findings.push(Finding::new("RESOLUTION_MISMATCH", Severity::Fail, msg));
    }
    assert(findings.deep_view() =~= f1 + f2);
    let ghost f3 = finding_if(
        profile.require_audio && !metadata.has_audio,
        finding("AUDIO_REQUIRED"@, Severity::Fail, "profile requires an audio track"@),
    );
    if profile.require_audio && !metadata.has_audio {
        findings.push(
            Finding::new("AUDIO_REQUIRED", Severity::Fail, owned("profile requires an audio track")),
        );
    }
    assert(findings.deep_view() =~= f1 + f2 + f3);
    let ghost f4 = finding_if(
        shorter_than(metadata.duration_ns, profile.min_duration_ns),
        finding(
            "DURATION_TOO_SHORT"@,
            Severity::Fail,
            "duration "@ + signed_fixed2_ns(duration_value(metadata.duration_ns))
                + "s is below minimum "@ + signed_fixed2_ns(duration_value(profile.min_duration_ns))
                + "s"@,
        ),
    );
    if let (Reading::Value(v), Reading::Value(m)) = (metadata.duration_ns, profile.min_duration_ns) {
        if v < m {
            let mut msg = owned("duration ");
            push_signed_fixed2_ns(&mut msg, v);
            push_str(&mut msg, "s is below minimum ");
            push_signed_fixed2_ns(&mut msg, m);
            push_str(&mut msg, "s");
            findings.push(Finding::new("DURATION_TOO_SHORT", Severity::Fail, msg));
        }
    }
    assert(findings.deep_view() =~= f1 + f2 + f3 + f4);
    ValidationResult::from_findings(findings)
}

} // verus!
