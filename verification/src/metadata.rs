use vstd::prelude::*;

use crate::float_text::Reading;

verus! {

/// Normalized facts about one media file, as the probe reports them.
/// The duration is held in whole nanoseconds, or as not a number.
#[derive(Debug, Clone)]
pub struct MediaMetadata {
    pub duration_ns: Reading,
    pub width: u32,
    pub height: u32,
    pub has_audio: bool,
    pub format_name: String,
    pub video_codec: Option<String>,
}

} // verus!
