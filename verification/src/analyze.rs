use vstd::prelude::*;

use crate::seqs::views;
use crate::text::{
    chars_of, contains, contains_exec, lines, lines_of, owned, push_str, string_of, trim,
    trim_chars,
};
use crate::validate::{finding, Finding, FindingView, Severity};

verus! {

/// One warning per line of black-frame detector output that reports a
/// black segment (holds `black_duration:`), with the trimmed line as message.
pub open spec fn black_frame_findings(ls: Seq<Seq<char>>) -> Seq<FindingView>
    decreases ls.len(),
{
    if ls.len() == 0 {
        Seq::empty()
    } else {
        black_frame_findings(ls.drop_last()) + if contains(ls.last(), "black_duration:"@) {
            seq![finding("BLACK_FRAMES"@, Severity::Warn, trim(ls.last()))]
        } else {
            Seq::empty()
        }
    }
}

/// The black-frame warnings in the diagnostic output of ffmpeg's
/// `blackdetect` filter.
pub fn parse_blackdetect_stderr(stderr: &str) -> (out: Vec<Finding>)
    ensures
        out.deep_view() == black_frame_findings(lines(stderr@)),
{
    let text = chars_of(stderr);
    let ls = lines_of(text.as_slice());
    let ghost all = views(ls@);
    assert(all =~= lines(stderr@));
    let needle = chars_of("black_duration:");
    let n = ls.len();
    let mut out: Vec<Finding> = Vec::new();
    let mut i: usize = 0;
    while i < n
        invariant
            n == ls@.len(),
            all == views(ls@),
            needle@ == "black_duration:"@,
            i <= n,
            out.deep_view() == black_frame_findings(all.take(i as int)),
        decreases n - i,
    {
        assert(all.take(i + 1).drop_last() =~= all.take(i as int));
        assert(all.take(i + 1).last() == ls@[i as int]@);
        let ghost before = out.deep_view();
        if contains_exec(ls[i].as_slice(), needle.as_slice()) {
            let t = trim_chars(ls[i].as_slice());
            out.push(Finding::new("BLACK_FRAMES", Severity::Warn, string_of(t.as_slice())));
            assert(out.deep_view() =~= before + seq![out@[out@.len() - 1]@]);
        } else {
            assert(out.deep_view() =~= before + Seq::<FindingView>::empty());
        }
        i = i + 1;
    }
    assert(all.take(n as int) =~= all);
    out
}

/// The findings of a decode pass: none when ffmpeg succeeded, else one
/// failure whose message is ffmpeg's trimmed diagnostic output (or a fixed
/// text when that is empty).
pub open spec fn decode_result(success: bool, stderr: Seq<char>) -> Seq<FindingView> {
    if success {
        Seq::empty()
    } else {
        let t = trim(stderr);
        seq![
            finding(
                "DECODE_FAILED"@,
                Severity::Fail,
                if t.len() == 0 {
                    "ffmpeg decode check failed"@
                } else {
                    t
                },
            ),
        ]
    }
}

/// The findings of a decode pass, from whether ffmpeg succeeded and its
/// diagnostic output.
pub fn decode_findings(success: bool, stderr: &str) -> (out: Vec<Finding>)
    ensures
        out.deep_view() == decode_result(success, stderr@),
{
    let mut out: Vec<Finding> = Vec::new();
    if success {
        return out;
    }
    let text = chars_of(stderr);
    let t = trim_chars(text.as_slice());
    let message = if t.len() == 0 {
        owned("ffmpeg decode check failed")
    } else {
        string_of(t.as_slice())
    };
    out.push(Finding::new("DECODE_FAILED", Severity::Fail, message));
    assert(out.deep_view() =~= decode_result(success, stderr@));
    out
}

/// The finding when the decode pass could not be run.
pub fn decode_run_error(reason: &str) -> (f: Finding)
    ensures
        f@ == finding(
            "DECODE_ERROR"@,
            Severity::Fail,
            "failed to run ffmpeg decode check: "@ + reason@,
        ),
{
    let mut msg = owned("failed to run ffmpeg decode check: ");
    push_str(&mut msg, reason);
    Finding::new("DECODE_ERROR", Severity::Fail, msg)
}

/// The finding when the black-frame pass could not be run.
pub fn black_frame_run_error(reason: &str) -> (f: Finding)
    ensures
        f@ == finding(
            "BLACK_FRAME_ERROR"@,
            Severity::Fail,
            "failed to run black frame analysis: "@ + reason@,
        ),
{
    let mut msg = owned("failed to run black frame analysis: ");
    push_str(&mut msg, reason);
    Finding::new("BLACK_FRAME_ERROR", Severity::Fail, msg)
}

/// A decode pass that did not succeed fails the file: it gives at least
/// one finding, every finding it gives has severity `Fail`, and the status
/// its findings imply is `Fail`, whatever ffmpeg printed. One that succeeded
/// gives nothing.
pub proof fn law_failed_decode_fails(stderr: Seq<char>)
    ensures
        decode_result(false, stderr).len() > 0,
        forall|k: int|
            0 <= k < decode_result(false, stderr).len() ==> (#[trigger] decode_result(false, stderr)[k]).severity
                == Severity::Fail,
        crate::validate::status_of(decode_result(false, stderr)) == crate::validate::Status::Fail,
        decode_result(true, stderr).len() == 0,
{
    assert(decode_result(false, stderr)[0].severity == Severity::Fail);
}

} // verus!
