use vstd::prelude::*;

use crate::metadata::MediaMetadata;
use crate::float_text::{float_reading, read_float, Reading};
use crate::text::{chars_of, owned, str_eq};

verus! {

/// One stream as the probe describes it.
#[derive(Debug, Clone)]
pub struct ProbeStream {
    pub codec_type: Option<String>,
    pub width: Option<u32>,
    pub height: Option<u32>,
    pub codec_name: Option<String>,
}

/// The container as the probe describes it.
#[derive(Debug, Clone)]
pub struct ProbeFormat {
    pub duration: Option<String>,
    pub format_name: Option<String>,
}

/// A probe duration in seconds, read the way `f64::from_str` reads it
/// (an optional sign, then `inf`, `infinity` or `nan` in any case, or
/// `DIGITS[.DIGITS]` or `.DIGITS` with an optional exponent `e[+-]DIGITS`),
/// as whole nanoseconds truncated toward zero; `None` when it is not such
/// a number. A size past `i64::MAX` nanoseconds (about 292 years),
/// infinity among them, is held at that bound, and `-0` reads as zero.
pub open spec fn duration_ns(s: Seq<char>) -> Option<Reading> {
    float_reading(s, 1, 9)
}

/// The error text for a duration that does not parse.
pub open spec fn duration_error(s: Seq<char>) -> Seq<char> {
    if s.len() == 0 {
        "cannot parse float from empty string"@
    } else {
        "invalid float literal"@
    }
}

/// The stream is of kind `kind`.
pub open spec fn stream_is(s: ProbeStream, kind: Seq<char>) -> bool {
    s.codec_type matches Some(t) && t@ == kind
}

/// The first stream of kind `video`, by index.
pub open spec fn first_video(streams: Seq<ProbeStream>) -> int
    decreases streams.len(),
{
    if streams.len() == 0 {
        -1
    } else if stream_is(streams[0], "video"@) {
        0
    } else {
        let r = first_video(streams.drop_first());
        if r < 0 {
            -1
        } else {
            r + 1
        }
    }
}

/// Some stream is of kind `audio`.
pub open spec fn has_audio_stream(streams: Seq<ProbeStream>) -> bool {
    exists|i: int| 0 <= i < streams.len() && stream_is(#[trigger] streams[i], "audio"@)
}

/// The metadata the probe output describes, or why there is none: no
/// video stream, no duration, a duration that does not parse, no width,
/// no height (checked in that order).
pub open spec fn metadata_result(streams: Seq<ProbeStream>, format: ProbeFormat) -> Result<
    (Reading, u32, u32, bool, Seq<char>, Option<Seq<char>>),
    Seq<char>,
> {
    let vi = first_video(streams);
    if vi < 0 {
        Err("No video stream found"@)
    } else {
        let video = streams[vi];
        match format.duration {
            None => Err("No duration found"@),
            Some(d) => match duration_ns(d@) {
                None => Err(duration_error(d@)),
                Some(ms) => match (video.width, video.height) {
                    (None, _) => Err("No width found"@),
                    (Some(_), None) => Err("No height found"@),
                    (Some(w), Some(h)) => Ok(
                        (
                            ms,
                            w,
                            h,
                            has_audio_stream(streams),
                            match format.format_name {
                                Some(f) => f@,
                                None => "unknown"@,
                            },
                            match video.codec_name {
                                Some(c) => Some(c@),
                                None => None,
                            },
                        ),
                    ),
                },
            },
        }
    }
}

/// The view of metadata.
pub open spec fn metadata_view(m: MediaMetadata) -> (Reading, u32, u32, bool, Seq<char>, Option<Seq<char>>) {
    (
        m.duration_ns,
        m.width,
        m.height,
        m.has_audio,
        m.format_name@,
        match m.video_codec {
            Some(c) => Some(c@),
            None => None,
        },
    )
}

/// Whether a stream is of kind `kind`.
fn is_kind(stream: &ProbeStream, kind: &str) -> (r: bool)
    ensures
        r == stream_is(*stream, kind@),
{
    match &stream.codec_type {
        Some(t) => str_eq(t.as_str(), kind),
        None => false,
    }
}

proof fn lemma_first_video(streams: Seq<ProbeStream>, k: int)
    requires
        -1 <= k < streams.len(),
        k >= 0 ==> stream_is(streams[k], "video"@),
        forall|j: int|
            0 <= j < streams.len() && (k < 0 || j < k) ==> !stream_is(#[trigger] streams[j], "video"@),
    ensures
        first_video(streams) == k,
    decreases streams.len(),
{
    if streams.len() > 0 && k != 0 {
        let t = streams.drop_first();
        assert forall|j: int|
            0 <= j < t.len() && (k - 1 < 0 || j < k - 1) implies !stream_is(#[trigger] t[j], "video"@) by {
            assert(t[j] == streams[j + 1]);
        }
        if k > 0 {
            assert(t[k - 1] == streams[k]);
            lemma_first_video(t, k - 1);
        } else {
            assert(!stream_is(streams[0], "video"@));
            lemma_first_video(t, -1);
        }
    }
}

/// A probe duration in nanoseconds.
pub fn parse_duration_ns(s: &str) -> (r: Option<Reading>)
    ensures
        r == duration_ns(s@),
{
    let all = chars_of(s);
    read_float(all.as_slice(), 1, 9)
}

/// Normalized metadata from the probe's description of the streams and
/// container.
pub fn metadata_from_probe(streams: &[ProbeStream], format: &ProbeFormat) -> (r: Result<
    MediaMetadata,
    String,
>)
    ensures
        match r {
            Ok(m) => metadata_result(streams@, *format) == Ok::<
                (Reading, u32, u32, bool, Seq<char>, Option<Seq<char>>),
                Seq<char>,
            >(metadata_view(m)),
            Err(e) => metadata_result(streams@, *format) == Err::<
                (Reading, u32, u32, bool, Seq<char>, Option<Seq<char>>),
                Seq<char>,
            >(e@),
        },
{
    let n = streams.len();
    let mut vi: usize = 0;
    while vi < n && !is_kind(&streams[vi], "video")
        invariant
            n == streams@.len(),
            vi <= n,
            forall|j: int| 0 <= j < vi ==> !stream_is(#[trigger] streams@[j], "video"@),
        decreases n - vi,
    {
        vi = vi + 1;
    }
    if vi == n {
        proof {
            lemma_first_video(streams@, -1);
        }
        return Err(owned("No video stream found"));
    }
    proof {
        lemma_first_video(streams@, vi as int);
    }
    let video = &streams[vi];
    let mut has_audio = false;
    let mut k: usize = 0;
    while k < n
        invariant
            n == streams@.len(),
            k <= n,
            has_audio == exists|j: int| 0 <= j < k && stream_is(#[trigger] streams@[j], "audio"@),
        decreases n - k,
    {
        if is_kind(&streams[k], "audio") {
            has_audio = true;
        }
        k = k + 1;
    }
    let duration_text = match &format.duration {
        None => return Err(owned("No duration found")),
        Some(d) => d,
    };
    let duration_ns = match parse_duration_ns(duration_text.as_str()) {
        None => {
            if duration_text.as_str().is_empty() {
                return Err(owned("cannot parse float from empty string"));
            } else {
                return Err(owned("invalid float literal"));
            }
        },
        Some(v) => v,
    };
    let width = match video.width {
        None => return Err(owned("No width found")),
        Some(w) => w,
    };
    let height = match video.height {
        None => return Err(owned("No height found")),
        Some(h) => h,
    };
    Ok(
        MediaMetadata {
            duration_ns,
            width,
            height,
            has_audio,
            format_name: match &format.format_name {
                Some(f) => f.clone(),
                None => owned("unknown"),
            },
            video_codec: match &video.codec_name {
                Some(c) => Some(c.clone()),
                None => None,
            },
        },
    )
}

} // verus!
