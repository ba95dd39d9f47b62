use vstd::prelude::*;

use crate::float_text::{float_reading, read_float, Reading, VALUE_CAP};
use crate::numbers::{all_digits, all_digits_exec, parse_u32, parse_u32_exec};
use crate::paths::{extension_chars, last_index_of, last_index_of_exec};
use crate::seqs::views;
use crate::text::{
    chars_eq, chars_of, contains, contains_exec, fixed1_ns, index_of, index_of_exec, lines, lines_of,
    lower_ascii, lower_ascii_exec, owned, push_chars, push_fixed1_ns, push_str, split_chars, split_on,
    take_until_ws, take_until_ws_exec, trim, trim_chars,
};
use crate::validate::{extension_or_empty, finding, Finding, FindingView, Severity};

verus! {

/// What a caption file holds: how many cues, and when the last one ends
/// (in nanoseconds).
#[derive(Debug, Clone, Copy, PartialEq)]
pub struct CaptionStats {
    pub cue_count: usize,
    pub last_end_ns: u64,
}

/// `s` with commas turned into dots.
pub open spec fn commas_to_dots(s: Seq<char>) -> Seq<char> {
    s.map_values(|c: char| if c == ',' { '.' } else { c })
}

/// A minutes or hours field read as nanoseconds (one unit of the field
/// being `m * 10^z` of them), or zero when it does not parse.
pub open spec fn field_or_zero(s: Seq<char>, m: nat, z: nat) -> Reading {
    match float_reading(s, m, z) {
        Some(r) => r,
        None => Reading::Value(0),
    }
}

/// `x`, held within `i64::MAX` nanoseconds either way.
pub open spec fn clamp_ns(x: int) -> int {
    if x > VALUE_CAP {
        VALUE_CAP as int
    } else if x < -(VALUE_CAP as int) {
        -(VALUE_CAP as int)
    } else {
        x
    }
}

/// The sum of the fields of a timestamp, in nanoseconds; not a number
/// when one of them is not.
pub open spec fn timestamp_sum(hours: Reading, minutes: Reading, seconds: Reading, ms: nat) -> Reading {
    match (hours, minutes, seconds) {
        (Reading::Value(h), Reading::Value(mi), Reading::Value(se)) => Reading::Value(
            clamp_ns(h + mi + se + ms * 1_000_000) as i64,
        ),
        _ => Reading::NotANumber,
    }
}

/// A caption timestamp (`[[HH:]MM:]SS[.mmm]`, comma or dot before the
/// milliseconds) in nanoseconds. Hours, minutes and seconds are decimal
/// numbers as `f64::from_str` reads them (sign, fraction, exponent,
/// `inf`, `nan`), each taken to whole nanoseconds, truncated toward
/// zero, before they are added. The seconds and milliseconds must parse;
/// a minutes or hours field that does not parse counts as zero. The digits
/// after the last dot are a count of milliseconds. Sizes past `i64::MAX`
/// nanoseconds (about 292 years), infinity among them, are held at that bound, so opposite
/// infinities add up to zero here where `f64` gives not-a-number.
pub open spec fn timestamp_ns(value: Seq<char>) -> Option<Reading> {
    let norm = commas_to_dots(value);
    let dot = last_index_of(norm, '.');
    let hms = if dot >= 0 {
        norm.take(dot)
    } else {
        norm
    };
    let millis = if dot >= 0 {
        parse_u32(norm.skip(dot + 1))
    } else {
        Some(0u32)
    };
    match millis {
        None => None,
        Some(ms) => {
            let parts = split_on(hms, ':');
            let n = parts.len() as int;
            match float_reading(parts[n - 1], 1, 9) {
                None => None,
                Some(sec) => {
                    let minutes = if n >= 2 {
                        field_or_zero(parts[n - 2], 6, 10)
                    } else {
                        Reading::Value(0)
                    };
                    let hours = if n >= 3 {
                        field_or_zero(parts[n - 3], 36, 11)
                    } else {
                        Reading::Value(0)
                    };
                    Some(timestamp_sum(hours, minutes, sec, ms as nat))
                },
            }
        },
    }
}

/// The start and end of a timing line `START --> END [settings]`.
pub open spec fn timing_of(line: Seq<char>) -> Option<(Reading, Reading)> {
    let i = index_of(line, "-->"@);
    if i < 0 {
        None
    } else {
        let start_raw = trim(line.take(i));
        let end_raw = trim(line.skip(i + 3));
        match timestamp_ns(start_raw) {
            None => None,
            Some(st) => if end_raw.len() == 0 {
                None
            } else {
                match timestamp_ns(take_until_ws(end_raw)) {
                    None => None,
                    Some(en) => Some((st, en)),
                }
            },
        }
    }
}

/// The pieces of `s` between blank-line separators (`"\n\n"`, matched
/// from the left without overlap).
pub open spec fn blocks(s: Seq<char>) -> Seq<Seq<char>>
    decreases s.len(),
{
    if s.len() < 2 {
        seq![s]
    } else if s[0] == '\n' && s[1] == '\n' {
        seq![Seq::<char>::empty()] + blocks(s.skip(2))
    } else {
        let r = blocks(s.drop_first());
        r.update(0, seq![s[0]] + r[0])
    }
}

/// The non-empty lines of `ls`, trimmed.
pub open spec fn trimmed_nonempty(ls: Seq<Seq<char>>) -> Seq<Seq<char>>
    decreases ls.len(),
{
    if ls.len() == 0 {
        Seq::empty()
    } else {
        trimmed_nonempty(ls.drop_last()) + if trim(ls.last()).len() > 0 {
            seq![trim(ls.last())]
        } else {
            Seq::empty()
        }
    }
}

/// The error for a cue whose timing cannot be read.
pub open spec fn malformed(prefix: Seq<char>, line: Seq<char>) -> FindingView {
    finding("CAPTIONS_MALFORMED"@, Severity::Fail, prefix + line)
}

/// What one SRT block contributes: nothing (fewer than two non-empty
/// lines), the end of its cue, or an error. The timing line is the second
/// line when the first is a cue number and a text line follows.
pub open spec fn srt_block(block: Seq<char>) -> Option<Result<Reading, FindingView>> {
    let ls = trimmed_nonempty(lines(block));
    if ls.len() < 2 {
        None
    } else {
        let timing = if all_digits(ls[0]) && ls.len() >= 3 {
            ls[1]
        } else {
            ls[0]
        };
        match timing_of(timing) {
            None => Some(Err(malformed("invalid SRT timing line: "@, timing))),
            Some((st, en)) => if ends_before(st, en) {
                Some(
                    Err(
                        finding(
                            "CAPTIONS_MALFORMED"@,
                            Severity::Fail,
                            "caption cue ends before it starts"@,
                        ),
                    ),
                )
            } else {
                Some(Ok(en))
            },
        }
    }
}

/// A cue ends before it starts; a time that is not a number compares
/// as neither earlier nor later.
pub open spec fn ends_before(st: Reading, en: Reading) -> bool {
    st matches Reading::Value(a) && en matches Reading::Value(b) && b < a
}

/// The last cue end after a cue ending at `en` (`f64::max`, which passes
/// over not-a-number).
pub open spec fn later_end(last: nat, en: Reading) -> nat {
    match en {
        Reading::Value(v) => if v > last {
            v as nat
        } else {
            last
        },
        Reading::NotANumber => last,
    }
}

/// The cue count and last cue end of SRT blocks, starting from `count`
/// cues ending at `last`; the first bad block gives the error.
pub open spec fn srt_fold(bs: Seq<Seq<char>>, count: nat, last: nat) -> Result<(nat, nat), FindingView>
    decreases bs.len(),
{
    if bs.len() == 0 {
        Ok((count, last))
    } else {
        match srt_block(bs[0]) {
            None => srt_fold(bs.drop_first(), count, last),
            Some(Err(f)) => Err(f),
            Some(Ok(en)) => srt_fold(bs.drop_first(), count + 1, later_end(last, en)),
        }
    }
}

/// The cue count and last cue end of SRT text.
pub open spec fn srt_stats(raw: Seq<char>) -> Result<(nat, nat), FindingView> {
    srt_fold(blocks(raw), 0, 0)
}

/// The cue count and last cue end of VTT lines: each line that holds
/// `-->` is a timing line.
pub open spec fn vtt_fold(ls: Seq<Seq<char>>, count: nat, last: nat) -> Result<(nat, nat), FindingView>
    decreases ls.len(),
{
    if ls.len() == 0 {
        Ok((count, last))
    } else {
        let line = trim(ls[0]);
        if !contains(line, "-->"@) {
            vtt_fold(ls.drop_first(), count, last)
        } else {
            match timing_of(line) {
                None => Err(malformed("invalid VTT timing line: "@, line)),
                Some((st, en)) => vtt_fold(ls.drop_first(), count + 1, later_end(last, en)),
            }
        }
    }
}

/// The cue count and last cue end of VTT text.
pub open spec fn vtt_stats(raw: Seq<char>) -> Result<(nat, nat), FindingView> {
    vtt_fold(lines(raw), 0, 0)
}

/// The outcome of checking the caption file at `path` with contents `raw`
/// against a video lasting `video` nanoseconds: its stats, or the first
/// problem found. A video length that is not a number is never longer
/// than the captions.
pub open spec fn captions_check(path: Seq<char>, raw: Seq<char>, video: Reading) -> Result<
    (nat, nat),
    FindingView,
> {
    let t = trim(raw);
    if t.len() == 0 {
        Err(finding("CAPTIONS_EMPTY"@, Severity::Fail, "caption file is empty"@))
    } else {
        let ext = lower_ascii(extension_or_empty(path));
        let parsed = if ext == "srt"@ {
            srt_stats(t)
        } else if ext == "vtt"@ {
            vtt_stats(t)
        } else {
            Err(
                finding(
                    "CAPTIONS_UNSUPPORTED"@,
                    Severity::Warn,
                    "unsupported caption format ."@ + ext,
                ),
            )
        };
        match parsed {
            Err(f) => Err(f),
            Ok((count, last)) => if count == 0 {
                Err(finding("CAPTIONS_EMPTY"@, Severity::Fail, "caption file has no cues"@))
            } else if video matches Reading::Value(v) && last + 500_000_000 < v {
                Err(
                    finding(
                        "CAPTIONS_SHORT"@,
                        Severity::Warn,
                        "captions end at "@ + fixed1_ns(last) + "s but video is "@ + fixed1_ns(
                            (video->0) as nat,
                        ) + "s"@,
                    ),
                )
            } else {
                Ok((count, last))
            },
        }
    }
}

/// The view of a check's outcome.
pub open spec fn outcome_view(r: Result<CaptionStats, Finding>) -> Result<(nat, nat), FindingView> {
    match r {
        Ok(s) => Ok((s.cue_count as nat, s.last_end_ns as nat)),
        Err(f) => Err(f@),
    }
}

proof fn lemma_blocks_len(s: Seq<char>)
    ensures
        blocks(s).len() >= 1,
    decreases s.len(),
{
    if s.len() >= 2 {
        if s[0] == '\n' && s[1] == '\n' {
            lemma_blocks_len(s.skip(2));
        } else {
            lemma_blocks_len(s.drop_first());
        }
    }
}

/// `s` with commas turned into dots.
fn commas_to_dots_exec(s: &[char]) -> (out: Vec<char>)
    ensures
        out@ == commas_to_dots(s@),
{
    let n = s.len();
    let mut out: Vec<char> = Vec::new();
    let mut i: usize = 0;
    while i < n
        invariant
            n == s@.len(),
            i <= n,
            out@ == commas_to_dots(s@.take(i as int)),
        decreases n - i,
    {
        let c = s[i];
        out.push(if c == ',' { '.' } else { c });
        assert(commas_to_dots(s@.take(i + 1)) =~= commas_to_dots(s@.take(i as int)).push(
            if c == ',' { '.' } else { c },
        ));
        i = i + 1;
    }
    assert(s@.take(n as int) =~= s@);
    out
}

/// A minutes or hours field in nanoseconds, zero when it does not parse.
fn field_or_zero_exec(s: &[char], m: u64, z: u64) -> (r: Reading)
    requires
        1 <= m <= 36,
        z <= 11,
    ensures
        r == field_or_zero(s@, m as nat, z as nat),
{
    match read_float(s, m, z) {
        Some(r) => r,
        None => Reading::Value(0),
    }
}

/// The sum of the fields of a timestamp.
fn timestamp_sum_exec(hours: Reading, minutes: Reading, seconds: Reading, ms: u32) -> (r: Reading)
    ensures
        r == timestamp_sum(hours, minutes, seconds, ms as nat),
{
    match (hours, minutes, seconds) {
        (Reading::Value(h), Reading::Value(mi), Reading::Value(se)) => {
            let total: i128 = (h as i128) + (mi as i128) + (se as i128) + (ms as i128) * 1_000_000;
            let cap = VALUE_CAP as i128;
            let clamped: i128 = if total > cap {
                cap
            } else if total < 0 - cap {
                0 - cap
            } else {
                total
            };
            Reading::Value(clamped as i64)
        },
        _ => Reading::NotANumber,
    }
}

/// A caption timestamp in nanoseconds.
pub fn parse_timestamp(value: &[char]) -> (r: Option<Reading>)
    ensures
        r == timestamp_ns(value@),
{
    let norm = commas_to_dots_exec(value);
    proof {
        crate::paths::lemma_last_index_of(norm@, '.');
    }
    let (hms, millis): (Vec<char>, Option<u32>) = match last_index_of_exec(norm.as_slice(), '.') {
        Some(dot) => {
            let left = crate::paths::chars_until(norm.as_slice(), dot);
            let right = crate::paths::chars_from(norm.as_slice(), dot + 1);
            (left, parse_u32_exec(right.as_slice()))
        },
        None => (norm.clone(), Some(0u32)),
    };
    assert(norm@ == commas_to_dots(value@));
    let ms = match millis {
        None => return None,
        Some(ms) => ms,
    };
    let parts = split_chars(hms.as_slice(), ':');
    let n = parts.len();
    proof {
        crate::text::lemma_split_on_len(hms@, ':');
    }
    let sec = match read_float(parts[n - 1].as_slice(), 1, 9) {
        None => return None,
        Some(s) => s,
    };
    let minutes = if n >= 2 {
        field_or_zero_exec(parts[n - 2].as_slice(), 6, 10)
    } else {
        Reading::Value(0)
    };
    let hours = if n >= 3 {
        field_or_zero_exec(parts[n - 3].as_slice(), 36, 11)
    } else {
        Reading::Value(0)
    };
    Some(timestamp_sum_exec(hours, minutes, sec, ms))
}

/// The start and end of a timing line.
pub fn parse_timestamp_line(line: &[char]) -> (r: Option<(Reading, Reading)>)
    ensures
        r == timing_of(line@),
{
    proof {
        reveal_strlit("-->");
    }
    let arrow = chars_of("-->");
    let i = match index_of_exec(line, arrow.as_slice()) {
        None => return None,
        Some(i) => i,
    };
    assert(arrow@.len() == 3);
    let before = crate::paths::chars_until(line, i);
    let after = crate::paths::chars_from(line, i + 3);
    let start_raw = trim_chars(before.as_slice());
    let end_raw = trim_chars(after.as_slice());
    let start = match parse_timestamp(start_raw.as_slice()) {
        None => return None,
        Some(v) => v,
    };
    if end_raw.len() == 0 {
        return None;
    }
    let word = take_until_ws_exec(end_raw.as_slice());
    match parse_timestamp(word.as_slice()) {
        None => None,
        Some(end) => Some((start, end)),
    }
}

/// The pieces of `s` between blank-line separators.
fn split_blocks(s: &[char]) -> (out: Vec<Vec<char>>)
    ensures
        views(out@) == blocks(s@),
{
    let n = s.len();
    let mut done: Vec<Vec<char>> = Vec::new();
    let mut cur: Vec<char> = Vec::new();
    let mut i: usize = 0;
    proof {
        lemma_blocks_len(s@);
        assert(s@.skip(0) =~= s@);
        let r = blocks(s@);
        assert(r.update(0, Seq::<char>::empty() + r[0]) =~= r);
    }
    while n - i > 1
        invariant
            n == s@.len(),
            i <= n,
            blocks(s@) == views(done@) + ({
                let r = blocks(s@.skip(i as int));
                r.update(0, cur@ + r[0])
            }),
        decreases n - i,
    {
        let ghost rest = s@.skip(i as int);
        let ghost old_done = views(done@);
        let ghost old_cur = cur@;
        assert(rest[0] == s@[i as int] && rest[1] == s@[i + 1]);
        if s[i] == '\n' && s[i + 1] == '\n' {
            proof {
                assert(rest.skip(2) =~= s@.skip(i + 2));
                lemma_blocks_len(s@.skip(i + 2));
            }
            let piece = cur;
            done.push(piece);
            cur = Vec::new();
            proof {
                let r1 = blocks(s@.skip(i + 2));
                assert(views(done@) =~= old_done.push(old_cur));
                assert(blocks(rest).update(0, old_cur + blocks(rest)[0]) =~= seq![old_cur] + r1);
                assert(r1.update(0, cur@ + r1[0]) =~= r1);
                assert(old_done + (seq![old_cur] + r1) =~= old_done.push(old_cur) + r1);
            }
            i = i + 2;
        } else {
            proof {
                assert(rest.drop_first() =~= s@.skip(i + 1));
                lemma_blocks_len(s@.skip(i + 1));
            }
            cur.push(s[i]);
            proof {
                let r1 = blocks(s@.skip(i + 1));
                assert(views(done@) =~= old_done);
                assert(old_cur + (seq![s@[i as int]] + r1[0]) =~= cur@ + r1[0]);
                assert(blocks(rest).update(0, old_cur + blocks(rest)[0]) =~= r1.update(0, cur@ + r1[0]));
            }
            i = i + 1;
        }
    }
    let ghost tail = s@.skip(i as int);
    assert(blocks(tail) == seq![tail]);
    let ghost old_done = views(done@);
    let ghost cur0 = cur@;
    let i0 = i;
    while i < n
        invariant
            n == s@.len(),
            i0 <= i <= n,
            tail == s@.skip(i0 as int),
            cur@ == cur0 + s@.subrange(i0 as int, i as int),
        decreases n - i,
    {
        cur.push(s[i]);
        assert(s@.subrange(i0 as int, i as int).push(s@[i as int]) =~= s@.subrange(i0 as int, i + 1));
        i = i + 1;
    }
    assert(s@.subrange(i0 as int, n as int) =~= tail);
    assert(seq![tail].update(0, cur0 + seq![tail][0]) =~= seq![cur@]);
    done.push(cur);
    assert(views(done@) =~= old_done + seq![done@[done@.len() - 1]@]);
    done
}

/// The non-empty lines of `ls`, trimmed.
fn trimmed_nonempty_exec(ls: &Vec<Vec<char>>) -> (out: Vec<Vec<char>>)
    ensures
        views(out@) == trimmed_nonempty(views(ls@)),
{
    let n = ls.len();
    let mut out: Vec<Vec<char>> = Vec::new();
    let mut i: usize = 0;
    while i < n
        invariant
            n == ls@.len(),
            i <= n,
            views(out@) == trimmed_nonempty(views(ls@).take(i as int)),
        decreases n - i,
    {
        let ghost pre = views(ls@).take(i as int);
        assert(views(ls@).take(i + 1).drop_last() =~= pre);
        assert(views(ls@).take(i + 1).last() == ls@[i as int]@);
        let ghost before = views(out@);
        let t = trim_chars(ls[i].as_slice());
        if t.len() > 0 {
            out.push(t);
            assert(views(out@) =~= before + seq![trim(ls@[i as int]@)]);
        } else {
            assert(views(out@) =~= before + Seq::<Seq<char>>::empty());
        }
        i = i + 1;
    }
    assert(views(ls@).take(n as int) =~= views(ls@));
    out
}

/// The view of a block step.
pub open spec fn step_view(r: Option<Result<Reading, Finding>>) -> Option<Result<Reading, FindingView>> {
    match r {
        None => None,
        Some(Ok(e)) => Some(Ok(e)),
        Some(Err(f)) => Some(Err(f@)),
    }
}

/// Whether a cue ends before it starts.
fn ends_before_exec(st: Reading, en: Reading) -> (r: bool)
    ensures
        r == ends_before(st, en),
{
    match (st, en) {
        (Reading::Value(a), Reading::Value(b)) => b < a,
        _ => false,
    }
}

/// The last cue end after a cue ending at `en`.
fn later_end_exec(last: u64, en: Reading) -> (r: u64)
    requires
        last <= VALUE_CAP,
    ensures
        r == later_end(last as nat, en),
        r <= VALUE_CAP,
{
    match en {
        Reading::Value(v) => if (v as i128) > (last as i128) {
            v as u64
        } else {
            last
        },
        Reading::NotANumber => last,
    }
}

/// What one SRT block contributes.
fn srt_block_step(block: &[char]) -> (r: Option<Result<Reading, Finding>>)
    ensures
        step_view(r) == srt_block(block@),
{
    let all_lines = lines_of(block);
    assert(views(all_lines@) =~= lines(block@));
    let ls = trimmed_nonempty_exec(&all_lines);
    if ls.len() < 2 {
        return None;
    }
    let timing: &Vec<char> = if all_digits_exec(ls[0].as_slice()) && ls.len() >= 3 {
        &ls[1]
    } else {
        &ls[0]
    };
    assert(views(ls@)[0] == ls@[0]@ && views(ls@)[1] == ls@[1]@);
    match parse_timestamp_line(timing.as_slice()) {
        None => {
            let mut msg = owned("invalid SRT timing line: ");
            push_chars(&mut msg, timing.as_slice());
            Some(Err(Finding::new("CAPTIONS_MALFORMED", Severity::Fail, msg)))
        },
        Some((start, end)) => {
            if ends_before_exec(start, end) {
                Some(
                    Err(
                        Finding::new(
                            "CAPTIONS_MALFORMED",
                            Severity::Fail,
                            owned("caption cue ends before it starts"),
                        ),
                    ),
                )
            } else {
                Some(Ok(end))
            }
        },
    }
}

/// Counts the cues of SRT text and finds when the last one ends.
pub fn parse_srt(raw: &str) -> (r: Result<CaptionStats, Finding>)
    ensures
        outcome_view(r) == srt_stats(raw@),
{
    let text = chars_of(raw);
    let bs = split_blocks(text.as_slice());
    let ghost all = views(bs@);
    let n = bs.len();
    let mut cue_count: usize = 0;
    let mut last_end_ns: u64 = 0;
    let mut i: usize = 0;
    assert(all.skip(0) =~= all);
    while i < n
        invariant
            n == bs@.len(),
            all == views(bs@),
            all == blocks(raw@),
            i <= n,
            cue_count <= i,
            last_end_ns <= VALUE_CAP,
            srt_stats(raw@) == srt_fold(all.skip(i as int), cue_count as nat, last_end_ns as nat),
        decreases n - i,
    {
        assert(all.skip(i as int)[0] == bs@[i as int]@);
        assert(all.skip(i as int).drop_first() =~= all.skip(i + 1));
        match srt_block_step(bs[i].as_slice()) {
            None => {},
            Some(Err(f)) => {
                return Err(f);
            },
            Some(Ok(end)) => {
                cue_count = cue_count + 1;
                last_end_ns = later_end_exec(last_end_ns, end);
            },
        }
        i = i + 1;
    }
    Ok(CaptionStats { cue_count, last_end_ns })
}

/// Counts the cues of VTT text and finds when the last one ends.
pub fn parse_vtt(raw: &str) -> (r: Result<CaptionStats, Finding>)
    ensures
        outcome_view(r) == vtt_stats(raw@),
{
    proof {
        reveal_strlit("-->");
    }
    let text = chars_of(raw);
    let ls = lines_of(text.as_slice());
    let ghost all = views(ls@);
    assert(all =~= lines(raw@));
    let arrow = chars_of("-->");
    let n = ls.len();
    let mut cue_count: usize = 0;
    let mut last_end_ns: u64 = 0;
    let mut i: usize = 0;
    assert(all.skip(0) =~= all);
    while i < n
        invariant
            n == ls@.len(),
            all == views(ls@),
            arrow@ == "-->"@,
            i <= n,
            cue_count <= i,
            last_end_ns <= VALUE_CAP,
            vtt_stats(raw@) == vtt_fold(all.skip(i as int), cue_count as nat, last_end_ns as nat),
        decreases n - i,
    {
        assert(all.skip(i as int)[0] == ls@[i as int]@);
        assert(all.skip(i as int).drop_first() =~= all.skip(i + 1));
        let line = trim_chars(ls[i].as_slice());
        if contains_exec(line.as_slice(), arrow.as_slice()) {
            match parse_timestamp_line(line.as_slice()) {
                None => {
                    let mut msg = owned("invalid VTT timing line: ");
                    push_chars(&mut msg, line.as_slice());
                    return Err(Finding::new("CAPTIONS_MALFORMED", Severity::Fail, msg));
                },
                Some((_start, end)) => {
                    cue_count = cue_count + 1;
                    last_end_ns = later_end_exec(last_end_ns, end);
                },
            }
        }
        i = i + 1;
    }
    Ok(CaptionStats { cue_count, last_end_ns })
}

/// Checks the caption file at `path`, whose contents are `raw`, against a
/// video lasting `video_duration_ns` nanoseconds: it must be non-empty,
/// in a supported format (`.srt` or `.vtt`, any ASCII case), hold at least
/// one cue, and cover the video to within half a second.
pub fn validate_captions(path: &str, raw: &str, video_duration_ns: Reading) -> (r: Result<
    CaptionStats,
    Finding,
>)
    ensures
        outcome_view(r) == captions_check(path@, raw@, video_duration_ns),
{
    proof {
        reveal_strlit("srt");
        reveal_strlit("vtt");
    }
    let text = chars_of(raw);
    let trimmed = trim_chars(text.as_slice());
    if trimmed.len() == 0 {
        return Err(Finding::new("CAPTIONS_EMPTY", Severity::Fail, owned("caption file is empty")));
    }
    let trimmed_text = crate::text::string_of(trimmed.as_slice());
    let p = chars_of(path);
    let ext_raw: Vec<char> = match extension_chars(p.as_slice()) {
        Some(e) => e,
        None => Vec::new(),
    };
    assert(ext_raw@ == extension_or_empty(path@));
    let ext = lower_ascii_exec(ext_raw.as_slice());
    let srt = chars_of("srt");
    let vtt = chars_of("vtt");
    let parsed = if chars_eq(ext.as_slice(), srt.as_slice()) {
        parse_srt(trimmed_text.as_str())
    } else if chars_eq(ext.as_slice(), vtt.as_slice()) {
        parse_vtt(trimmed_text.as_str())
    } else {
        let mut msg = owned("unsupported caption format .");
        push_chars(&mut msg, ext.as_slice());
        return Err(Finding::new("CAPTIONS_UNSUPPORTED", Severity::Warn, msg));
    };
    let stats = match parsed {
        Err(f) => return Err(f),
        Ok(stats) => stats,
    };
    if stats.cue_count == 0 {
        return Err(Finding::new("CAPTIONS_EMPTY", Severity::Fail, owned("caption file has no cues")));
    }
    if let Reading::Value(v) = video_duration_ns {
        if (stats.last_end_ns as i128) + 500_000_000 < (v as i128) {
            let mut msg = owned("captions end at ");
            push_fixed1_ns(&mut msg, stats.last_end_ns);
            push_str(&mut msg, "s but video is ");
            push_fixed1_ns(&mut msg, v as u64);
            push_str(&mut msg, "s");
            return Err(Finding::new("CAPTIONS_SHORT", Severity::Warn, msg));
        }
    }
    Ok(stats)
}

/// The finding for a caption file that could not be read.
pub fn unreadable_captions(reason: &str) -> (f: Finding)
    ensures
        f@ == finding(
            "CAPTIONS_UNREADABLE"@,
            Severity::Fail,
            "could not read captions file: "@ + reason@,
        ),
{
    let mut msg = owned("could not read captions file: ");
    push_str(&mut msg, reason);
    Finding::new("CAPTIONS_UNREADABLE", Severity::Fail, msg)
}

/// The line is a VTT timing line: trimmed, it holds `-->`.
pub open spec fn is_cue_line(l: Seq<char>) -> bool {
    contains(trim(l), "-->"@)
}

/// The end of the cue a timing line gives, where it reads as a number.
pub open spec fn cue_end_value(r: Option<(Reading, Reading)>) -> Option<int> {
    match r {
        Some((_, Reading::Value(v))) => Some(v as int),
        _ => None,
    }
}

proof fn lemma_vtt_fold(ls: Seq<Seq<char>>, count: nat, last: nat)
    ensures
        vtt_fold(ls, count, last) matches Ok((c, l)) ==> {
            &&& c == count + ls.filter(|x: Seq<char>| is_cue_line(x)).len()
            &&& l >= last
            &&& forall|i: int|
                0 <= i < ls.len() && is_cue_line(#[trigger] ls[i]) ==> timing_of(trim(ls[i])) is Some && (
                cue_end_value(timing_of(trim(ls[i]))) matches Some(v) ==> v <= l)
            &&& l == last || exists|i: int|
                0 <= i < ls.len() && is_cue_line(#[trigger] ls[i]) && cue_end_value(timing_of(trim(ls[i])))
                    == Some(l as int)
        },
        vtt_fold(ls, count, last) is Err ==> exists|i: int|
            0 <= i < ls.len() && is_cue_line(#[trigger] ls[i]) && timing_of(trim(ls[i])) is None,
    decreases ls.len(),
{
    let pred = |x: Seq<char>| is_cue_line(x);
    if ls.len() > 0 {
        let t = ls.drop_first();
        let h = ls[0];
        assert(ls =~= seq![h] + t);
        Seq::filter_distributes_over_add(seq![h], t, pred);
        reveal(Seq::filter);
        let one = seq![h];
        assert(one.drop_last() =~= Seq::<Seq<char>>::empty());
        assert(Seq::<Seq<char>>::empty().filter(pred) =~= Seq::<Seq<char>>::empty());
        assert(one.last() == h);
        assert(pred(h) == is_cue_line(h));
        assert(one.filter(pred).len() == if is_cue_line(h) { 1nat } else { 0nat });
        let line = trim(h);
        if !contains(line, "-->"@) {
            lemma_vtt_fold(t, count, last);
            if let Ok((c, l)) = vtt_fold(ls, count, last) {
                assert forall|i: int|
                    0 <= i < ls.len() && is_cue_line(#[trigger] ls[i]) implies timing_of(trim(ls[i])) is Some && (
                    cue_end_value(timing_of(trim(ls[i]))) matches Some(v) ==> v <= l) by {
                    assert(i > 0);
                    assert(ls[i] == t[i - 1]);
                }
                if l != last {
                    let j = choose|j: int|
                        0 <= j < t.len() && is_cue_line(#[trigger] t[j]) && cue_end_value(timing_of(trim(t[j])))
                            == Some(l as int);
                    assert(ls[j + 1] == t[j]);
                }
            } else {
                let j = choose|j: int| 0 <= j < t.len() && is_cue_line(#[trigger] t[j]) && timing_of(trim(t[j])) is None;
                assert(ls[j + 1] == t[j]);
            }
        } else {
            match timing_of(line) {
                None => {
                    assert(is_cue_line(ls[0]));
                },
                Some((st, en)) => {
                    let nl: nat = match en {
                        Reading::Value(v) => if v > last { v as nat } else { last },
                        Reading::NotANumber => last,
                    };
                    assert(later_end(last, en) == nl);
                    lemma_vtt_fold(t, count + 1, nl);
                    if let Ok((c, l)) = vtt_fold(ls, count, last) {
                        assert forall|i: int|
                            0 <= i < ls.len() && is_cue_line(#[trigger] ls[i]) implies timing_of(trim(ls[i])) is Some && (
                            cue_end_value(timing_of(trim(ls[i]))) matches Some(v) ==> v <= l) by {
                            if i > 0 {
                                assert(ls[i] == t[i - 1]);
                            }
                        }
                        if l != last {
                            if l == nl {
                                assert(is_cue_line(ls[0]));
                                assert(cue_end_value(timing_of(trim(ls[0]))) == Some(l as int));
                            } else {
                                let j = choose|j: int|
                                    0 <= j < t.len() && is_cue_line(#[trigger] t[j]) && cue_end_value(
                                        timing_of(trim(t[j])),
                                    ) == Some(l as int);
                                assert(ls[j + 1] == t[j]);
                            }
                        }
                    } else {
                        let j = choose|j: int| 0 <= j < t.len() && is_cue_line(#[trigger] t[j]) && timing_of(trim(t[j])) is None;
                        assert(ls[j + 1] == t[j]);
                    }
                },
            }
        }
    } else {
        reveal(Seq::filter);
        assert(ls.filter(pred) =~= Seq::<Seq<char>>::empty());
    }
}

/// A VTT file that reads counts one cue per timing line, and its last cue
/// end is the latest end of all its cues: no cue that reads ends later,
/// and it is the end of one of them (or 0 when none reads as a number).
/// One that does not read has a timing line whose times do not read.
pub proof fn law_vtt_last_end_is_latest(raw: Seq<char>)
    ensures
        vtt_stats(raw) matches Ok((count, last)) ==> {
            let ls = lines(raw);
            &&& count == ls.filter(|x: Seq<char>| is_cue_line(x)).len()
            &&& forall|i: int|
                0 <= i < ls.len() && is_cue_line(#[trigger] ls[i]) ==> timing_of(trim(ls[i])) is Some && (
                cue_end_value(timing_of(trim(ls[i]))) matches Some(v) ==> v <= last)
            &&& last == 0 || exists|i: int|
                0 <= i < ls.len() && is_cue_line(#[trigger] ls[i]) && cue_end_value(timing_of(trim(ls[i])))
                    == Some(last as int)
        },
        vtt_stats(raw) is Err ==> exists|i: int|
            0 <= i < lines(raw).len() && is_cue_line(#[trigger] lines(raw)[i]) && timing_of(trim(lines(raw)[i]))
                is None,
{
    lemma_vtt_fold(lines(raw), 0, 0);
}

/// The block holds a cue whose timing reads.
pub open spec fn is_cue_block(b: Seq<char>) -> bool {
    srt_block(b) matches Some(Ok(_))
}

/// The end of the cue of a block, where it reads as a number.
pub open spec fn block_end_value(r: Option<Result<Reading, FindingView>>) -> Option<int> {
    match r {
        Some(Ok(Reading::Value(v))) => Some(v as int),
        _ => None,
    }
}

proof fn lemma_srt_fold(bs: Seq<Seq<char>>, count: nat, last: nat)
    ensures
        srt_fold(bs, count, last) matches Ok((c, l)) ==> {
            &&& c == count + bs.filter(|x: Seq<char>| is_cue_block(x)).len()
            &&& l >= last
            &&& forall|i: int|
                0 <= i < bs.len() && srt_block(#[trigger] bs[i]) is Some ==> is_cue_block(bs[i]) && (
                block_end_value(srt_block(bs[i])) matches Some(v) ==> v <= l)
            &&& l == last || exists|i: int|
                0 <= i < bs.len() && block_end_value(srt_block(#[trigger] bs[i])) == Some(l as int)
        },
        srt_fold(bs, count, last) is Err ==> exists|i: int|
            0 <= i < bs.len() && srt_block(#[trigger] bs[i]) matches Some(Err(_)),
    decreases bs.len(),
{
    let pred = |x: Seq<char>| is_cue_block(x);
    if bs.len() > 0 {
        let t = bs.drop_first();
        let h = bs[0];
        assert(bs =~= seq![h] + t);
        Seq::filter_distributes_over_add(seq![h], t, pred);
        reveal(Seq::filter);
        let one = seq![h];
        assert(one.drop_last() =~= Seq::<Seq<char>>::empty());
        assert(Seq::<Seq<char>>::empty().filter(pred) =~= Seq::<Seq<char>>::empty());
        assert(one.last() == h);
        assert(pred(h) == is_cue_block(h));
        assert(one.filter(pred).len() == if is_cue_block(h) { 1nat } else { 0nat });
        match srt_block(h) {
            None => {
                lemma_srt_fold(t, count, last);
                if let Ok((c, l)) = srt_fold(bs, count, last) {
                    assert forall|i: int|
                        0 <= i < bs.len() && srt_block(#[trigger] bs[i]) is Some implies is_cue_block(bs[i]) && (
                        block_end_value(srt_block(bs[i])) matches Some(v) ==> v <= l) by {
                        assert(i > 0);
                        assert(bs[i] == t[i - 1]);
                    }
                    if l != last {
                        let j = choose|j: int| 0 <= j < t.len() && block_end_value(srt_block(#[trigger] t[j])) == Some(l as int);
                        assert(bs[j + 1] == t[j]);
                    }
                } else {
                    let j = choose|j: int| 0 <= j < t.len() && srt_block(#[trigger] t[j]) matches Some(Err(_));
                    assert(bs[j + 1] == t[j]);
                }
            },
            Some(Err(f)) => {
                assert(srt_block(bs[0]) matches Some(Err(_)));
            },
            Some(Ok(en)) => {
                let nl: nat = match en {
                    Reading::Value(v) => if v > last { v as nat } else { last },
                    Reading::NotANumber => last,
                };
                assert(later_end(last, en) == nl);
                lemma_srt_fold(t, count + 1, nl);
                if let Ok((c, l)) = srt_fold(bs, count, last) {
                    assert forall|i: int|
                        0 <= i < bs.len() && srt_block(#[trigger] bs[i]) is Some implies is_cue_block(bs[i]) && (
                        block_end_value(srt_block(bs[i])) matches Some(v) ==> v <= l) by {
                        if i > 0 {
                            assert(bs[i] == t[i - 1]);
                        }
                    }
                    if l != last {
                        if l == nl {
                            assert(block_end_value(srt_block(bs[0])) == Some(l as int));
                        } else {
                            let j = choose|j: int| 0 <= j < t.len() && block_end_value(srt_block(#[trigger] t[j])) == Some(l as int);
                            assert(bs[j + 1] == t[j]);
                        }
                    }
                } else {
                    let j = choose|j: int| 0 <= j < t.len() && srt_block(#[trigger] t[j]) matches Some(Err(_));
                    assert(bs[j + 1] == t[j]);
                }
            },
        }
    } else {
        reveal(Seq::filter);
        assert(bs.filter(pred) =~= Seq::<Seq<char>>::empty());
    }
}

/// An SRT file that reads counts one cue per block with a readable cue,
/// and its last cue end is the latest end of all its cues: no cue ends
/// later, and it is the end of one of them (or 0 when none reads as a
/// number). One that does not read has a block that gives the error.
pub proof fn law_srt_last_end_is_latest(raw: Seq<char>)
    ensures
        srt_stats(raw) matches Ok((count, last)) ==> {
            let bs = blocks(raw);
            &&& count == bs.filter(|x: Seq<char>| is_cue_block(x)).len()
            &&& forall|i: int|
                0 <= i < bs.len() && srt_block(#[trigger] bs[i]) is Some ==> is_cue_block(bs[i]) && (
                block_end_value(srt_block(bs[i])) matches Some(v) ==> v <= last)
            &&& last == 0 || exists|i: int|
                0 <= i < bs.len() && block_end_value(srt_block(#[trigger] bs[i])) == Some(last as int)
        },
        srt_stats(raw) is Err ==> exists|i: int|
            0 <= i < blocks(raw).len() && srt_block(#[trigger] blocks(raw)[i]) matches Some(Err(_)),
{
    lemma_srt_fold(blocks(raw), 0, 0);
}

/// A VTT or SRT file whose cues read covers the video when the video is
/// not more than half a second longer than its last cue end: it is then
/// accepted as it read; when the video is longer by more, it is answered
/// with a `CAPTIONS_SHORT` warning.
pub proof fn law_captions_cover_the_video(path: Seq<char>, raw: Seq<char>, video: Reading)
    requires
        lower_ascii(extension_or_empty(path)) == "vtt"@ || lower_ascii(extension_or_empty(path)) == "srt"@,
        trim(raw).len() > 0,
    ensures
        ({
            let parsed = if lower_ascii(extension_or_empty(path)) == "srt"@ {
                srt_stats(trim(raw))
            } else {
                vtt_stats(trim(raw))
            };
            match parsed {
                Ok((count, last)) => count > 0 ==> {
                    let short = match video {
                        Reading::Value(v) => v > last + 500_000_000,
                        Reading::NotANumber => false,
                    };
                    &&& short ==> (captions_check(path, raw, video) matches Err(f) && f.code == "CAPTIONS_SHORT"@
                        && f.severity == Severity::Warn)
                    &&& !short ==> captions_check(path, raw, video) == Ok::<(nat, nat), FindingView>((count, last))
                },
                Err(_) => true,
            }
        }),
{
    reveal_strlit("srt");
    reveal_strlit("vtt");
}

} // verus!
