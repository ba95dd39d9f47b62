use mediaqa::captions::{parse_srt, parse_timestamp, parse_vtt, validate_captions};
use mediaqa::float_text::Reading;

#[test]
fn parse_srt_counts_cues() {
    let raw = "1\n00:00:01,000 --> 00:00:03,000\nHello\n\n2\n00:00:04,000 --> 00:00:06,000\nWorld\n";
    let stats = parse_srt(raw).expect("stats");
    assert_eq!(stats.cue_count, 2);
    assert!((stats.last_end_ns as f64 / 1e9 - 6.0).abs() < 0.01);
}

#[test]
fn parse_vtt_counts_cues() {
    let raw = "WEBVTT\n\n00:00:01.000 --> 00:00:03.000\nHello\n";
    let stats = parse_vtt(raw).expect("stats");
    assert_eq!(stats.cue_count, 1);
}

#[test]
fn validate_captions_flags_short_coverage() {
    let err = validate_captions("clip.srt", "1\n00:00:00,000 --> 00:00:02,000\nHi\n", Reading::Value(30_000_000_000))
        .expect_err("short");
    assert_eq!(err.code, "CAPTIONS_SHORT");
}

#[test]
fn srt_last_cue_end_is_exact() {
    let raw = "1\n00:01:02,345 --> 01:00:00,500\nLine\n";
    let stats = parse_srt(raw).expect("stats");
    assert_eq!(stats.cue_count, 1);
    assert_eq!(stats.last_end_ns, 3_600_500_000_000);
}

fn stamp(text: &str) -> Option<Reading> {
    let cs: Vec<char> = text.chars().collect();
    parse_timestamp(&cs)
}

#[test]
fn timestamp_fields_are_decimal_numbers() {
    assert_eq!(stamp("00:00:01,250"), Some(Reading::Value(1_250_000_000)));
    assert_eq!(stamp("00:00:1e1"), Some(Reading::Value(10_000_000_000)));
    assert_eq!(stamp("+1"), Some(Reading::Value(1_000_000_000)));
    assert_eq!(stamp("00:01.5:00,000"), Some(Reading::Value(90_000_000_000)));
    assert_eq!(stamp("1e0:00:00"), Some(Reading::Value(3_600_000_000_000)));
    assert_eq!(stamp("0.5:00:00"), None);
    assert_eq!(stamp("5000000000"), Some(Reading::Value(5_000_000_000_000_000_000)));
    assert_eq!(stamp("-2"), Some(Reading::Value(-2_000_000_000)));
    assert_eq!(stamp("x:00:03"), Some(Reading::Value(3_000_000_000)));
    assert_eq!(stamp("nan"), Some(Reading::NotANumber));
    assert_eq!(stamp("00:00:xx"), None);
    assert_eq!(stamp("00:00:01,5x"), None);
}

#[test]
fn cue_with_unreadable_end_time_counts_without_moving_the_end() {
    let raw = "1\n00:00:01,000 --> 00:00:04,000\nA\n\n2\n00:00:05,000 --> NaN\nB\n";
    let stats = parse_srt(raw).expect("stats");
    assert_eq!(stats.cue_count, 2);
    assert_eq!(stats.last_end_ns, 4_000_000_000);
}

#[test]
fn cue_ending_before_it_starts_is_malformed() {
    let raw = "1\n00:00:05,000 --> -1\nA\n";
    let err = parse_srt(raw).expect_err("malformed");
    assert_eq!(err.code, "CAPTIONS_MALFORMED");
    assert_eq!(err.message, "caption cue ends before it starts");
}

#[test]
fn video_length_that_is_not_a_number_needs_no_more_captions() {
    let stats = validate_captions("clip.vtt", "WEBVTT\n\n00:00.000 --> 00:02.000\nHi\n", Reading::NotANumber)
        .expect("stats");
    assert_eq!(stats.last_end_ns, 2_000_000_000);
}
