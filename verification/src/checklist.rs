use vstd::prelude::*;

use crate::config::{Profile, ProfileView};
use crate::seqs::{join, join_chars, views};
use crate::float_text::Reading;
use crate::text::{
    chars_of, dec, fixed1, owned, push_decimal, push_fixed1, push_signed_fixed1_ns,
    push_signed_tenths, push_str, signed_fixed1_ns, signed_tenths,
};

verus! {

/// A duration of nanoseconds as seconds with one decimal, or `NaN`.
pub open spec fn seconds_text(d: Reading) -> Seq<char> {
    match d {
        Reading::Value(v) => signed_fixed1_ns(v as int),
        Reading::NotANumber => "NaN"@,
    }
}

/// The lines of the delivery checklist for a profile.
pub open spec fn checklist_lines(name: Seq<char>, p: ProfileView) -> Seq<Seq<char>> {
    seq![
        "# Delivery checklist: "@ + name,
        Seq::<char>::empty(),
        "## Required video"@,
        "- Container extension: `."@ + p.extension + "`"@,
        "- Resolution: "@ + dec(p.width as nat) + "x"@ + dec(p.height as nat),
        "- Minimum duration: "@ + seconds_text(p.min_duration_ns) + " seconds"@,
        Seq::<char>::empty(),
        "## Audio"@,
        if p.require_audio {
            "- Audio track required"@
        } else {
            "- Audio track optional"@
        },
        "- Maximum leading/trailing silence: "@ + fixed1(p.max_silence_ms as nat) + " seconds"@,
        "- Minimum mean volume: "@ + signed_tenths(p.min_mean_volume_db_tenths as int) + " dB"@,
        Seq::<char>::empty(),
        "## Package"@,
    ] + (if p.require_captions {
        seq!["- Captions sidecar required (.srt or .vtt)"@]
    } else {
        Seq::empty()
    }) + (if p.require_thumbnail {
        seq!["- Thumbnail sidecar required (.jpg or .png)"@]
    } else {
        Seq::empty()
    }) + (if !p.require_captions && !p.require_thumbnail {
        seq!["- No sidecar files required"@]
    } else {
        Seq::empty()
    })
}

/// Appends the characters of `s` as a new line of `lines`.
fn add_line(lines: &mut Vec<Vec<char>>, s: String)
    ensures
        views(final(lines)@) == views(old(lines)@).push(s@),
{
    let ghost before = views(lines@);
    lines.push(chars_of(s.as_str()));
    assert(views(lines@) =~= before.push(s@));
}

/// A client-ready delivery checklist for the profile `profile_name`, one
/// item per line.
pub fn render_checklist(profile_name: &str, profile: &Profile) -> (out: String)
    ensures
        out@ == join(checklist_lines(profile_name@, profile@), "\n"@),
{
    let mut lines: Vec<Vec<char>> = Vec::new();
    let mut s = owned("# Delivery checklist: ");
    push_str(&mut s, profile_name);
    add_line(&mut lines, s);
    add_line(&mut lines, String::new());
    add_line(&mut lines, owned("## Required video"));
    let mut s = owned("- Container extension: `.");
    push_str(&mut s, profile.extension.as_str());
    push_str(&mut s, "`");
    add_line(&mut lines, s);
    let mut s = owned("- Resolution: ");
    push_decimal(&mut s, profile.width as u64);
    push_str(&mut s, "x");
    push_decimal(&mut s, profile.height as u64);
    add_line(&mut lines, s);
    let mut s = owned("- Minimum duration: ");
    match profile.min_duration_ns {
        Reading::Value(v) => push_signed_fixed1_ns(&mut s, v),
        Reading::NotANumber => push_str(&mut s, "NaN"),
    }
    push_str(&mut s, " seconds");
    add_line(&mut lines, s);
    add_line(&mut lines, String::new());
    add_line(&mut lines, owned("## Audio"));
    if profile.require_audio {
        add_line(&mut lines, owned("- Audio track required"));
    } else {
        add_line(&mut lines, owned("- Audio track optional"));
    }
    let mut s = owned("- Maximum leading/trailing silence: ");
    push_fixed1(&mut s, profile.max_silence_ms);
    push_str(&mut s, " seconds");
    add_line(&mut lines, s);
    let mut s = owned("- Minimum mean volume: ");
    push_signed_tenths(&mut s, profile.min_mean_volume_db_tenths);
    push_str(&mut s, " dB");
    add_line(&mut lines, s);
    add_line(&mut lines, String::new());
    add_line(&mut lines, owned("## Package"));
    if profile.require_captions {
        add_line(&mut lines, owned("- Captions sidecar required (.srt or .vtt)"));
    }
    if profile.require_thumbnail {
        add_line(&mut lines, owned("- Thumbnail sidecar required (.jpg or .png)"));
    }
    if !profile.require_captions && !profile.require_thumbnail {
        add_line(&mut lines, owned("- No sidecar files required"));
    }
    assert(views(lines@) =~= checklist_lines(profile_name@, profile@));
    join_chars(&lines, "\n")
}

} // verus!
