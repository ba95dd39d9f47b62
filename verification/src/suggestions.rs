use vstd::prelude::*;

use crate::text::{owned, str_eq};
use crate::validate::{Finding, FindingView};

verus! {

/// A remediation hint for one finding code.
#[derive(Debug, Clone, PartialEq, Eq)]
pub struct FixSuggestion {
    pub code: String,
    pub suggestion: String,
}

/// The content of a fix suggestion.
pub struct FixSuggestionView {
    pub code: Seq<char>,
    pub suggestion: Seq<char>,
}

impl View for FixSuggestion {
    type V = FixSuggestionView;

    open spec fn view(&self) -> FixSuggestionView {
        FixSuggestionView { code: self.code@, suggestion: self.suggestion@ }
    }
}

impl DeepView for FixSuggestion {
    type V = FixSuggestionView;

    open spec fn deep_view(&self) -> FixSuggestionView {
        self@
    }
}

/// The remediation text for a finding code, for the codes that have one.
pub open spec fn suggestion_text(code: Seq<char>) -> Option<Seq<char>> {
    if code == "RESOLUTION_MISMATCH"@ {
        Some("Re-export at the profile resolution before delivery."@)
    } else if code == "AUDIO_REQUIRED"@ {
        Some("Add an audio track or disable require_audio for this profile."@)
    } else if code == "DURATION_TOO_SHORT"@ {
        Some("Extend the clip or lower min_duration_secs in the profile."@)
    } else if code == "EXTENSION_MISMATCH"@ {
        Some("Re-wrap or re-export to the required container extension."@)
    } else if code == "BLACK_FRAMES"@ {
        Some("Trim leading black frames or regenerate the export."@)
    } else if code == "SILENCE_DETECTED"@ {
        Some("Remove dead air at the head/tail or adjust audio levels."@)
    } else if code == "AUDIO_TOO_QUIET"@ {
        Some("Normalize dialogue loudness before re-exporting."@)
    } else if code == "CAPTIONS_MISSING"@ {
        Some("Add an .srt or .vtt file with the same basename as the video."@)
    } else if code == "THUMBNAIL_MISSING"@ {
        Some("Add a .jpg or .png thumbnail with the same basename as the video."@)
    } else if code == "DECODE_FAILED"@ {
        Some("Re-encode the source or inspect the file for corruption."@)
    } else {
        None
    }
}

/// The suggestions for `findings`: one per finding whose code has a
/// remediation text, in the order of the findings.
pub open spec fn suggestions_spec(findings: Seq<FindingView>) -> Seq<FixSuggestionView>
    decreases findings.len(),
{
    if findings.len() == 0 {
        Seq::empty()
    } else {
        let last = findings.last();
        suggestions_spec(findings.drop_last()) + match suggestion_text(last.code) {
            Some(t) => seq![FixSuggestionView { code: last.code, suggestion: t }],
            None => Seq::empty(),
        }
    }
}

/// The remediation text for `code`, if it has one.
pub fn suggestion_for_code(code: &str) -> (r: Option<String>)
    ensures
        match r {
            Some(t) => suggestion_text(code@) == Some(t@),
            None => suggestion_text(code@) is None,
        },
{
    if str_eq(code, "RESOLUTION_MISMATCH") {
        Some(owned("Re-export at the profile resolution before delivery."))
    } else if str_eq(code, "AUDIO_REQUIRED") {
        Some(owned("Add an audio track or disable require_audio for this profile."))
    } else if str_eq(code, "DURATION_TOO_SHORT") {
        Some(owned("Extend the clip or lower min_duration_secs in the profile."))
    } else if str_eq(code, "EXTENSION_MISMATCH") {
        Some(owned("Re-wrap or re-export to the required container extension."))
    } else if str_eq(code, "BLACK_FRAMES") {
        Some(owned("Trim leading black frames or regenerate the export."))
    } else if str_eq(code, "SILENCE_DETECTED") {
        Some(owned("Remove dead air at the head/tail or adjust audio levels."))
    } else if str_eq(code, "AUDIO_TOO_QUIET") {
        Some(owned("Normalize dialogue loudness before re-exporting."))
    } else if str_eq(code, "CAPTIONS_MISSING") {
        Some(owned("Add an .srt or .vtt file with the same basename as the video."))
    } else if str_eq(code, "THUMBNAIL_MISSING") {
        Some(owned("Add a .jpg or .png thumbnail with the same basename as the video."))
    } else if str_eq(code, "DECODE_FAILED") {
        Some(owned("Re-encode the source or inspect the file for corruption."))
    } else {
        None
    }
}

/// The fix suggestions for `findings`.
pub fn suggestions_for_findings(findings: &[Finding]) -> (out: Vec<FixSuggestion>)
    ensures
        out.deep_view() == suggestions_spec(findings.deep_view()),
{
    let n = findings.len();
    let mut out: Vec<FixSuggestion> = Vec::new();
    let mut i: usize = 0;
    while i < n
        invariant
            n == findings@.len(),
            i <= n,
            out.deep_view() == suggestions_spec(findings.deep_view().take(i as int)),
        decreases n - i,
    {
        let ghost prefix = findings.deep_view().take(i + 1);
        assert(prefix.drop_last() =~= findings.deep_view().take(i as int));
        assert(prefix.last() == findings@[i as int]@);
        let ghost before = out.deep_view();
        match suggestion_for_code(findings[i].code.as_str()) {
            Some(text) => {
                out.push(FixSuggestion { code: findings[i].code.clone(), suggestion: text });
                assert(out.deep_view() =~= before + seq![out@[out@.len() - 1]@]);
            },
            None => {
                assert(before + Seq::<FixSuggestionView>::empty() =~= before);
            },
        }
        i = i + 1;
    }
    assert(findings.deep_view().take(n as int) =~= findings.deep_view());
    out
}

} // verus!
