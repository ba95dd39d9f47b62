use mediaqa::config::Profile;
use mediaqa::float_text::Reading;
use mediaqa::metadata::MediaMetadata;
use mediaqa::probe::parse_duration_ns;
use mediaqa::validate::{validate, Status};

fn sample_profile() -> Profile {
    Profile {
        extension: "mp4".into(),
        width: 1920,
        height: 1080,
        require_audio: true,
        min_duration_ns: Reading::Value(5_000_000_000),
        max_silence_ms: 2_000,
        min_mean_volume_db_tenths: -500,
        require_captions: false,
        require_thumbnail: false,
        max_file_size_mb: None,
    }
}

fn sample_metadata() -> MediaMetadata {
    MediaMetadata {
        duration_ns: Reading::Value(10_000_000_000),
        width: 1920,
        height: 1080,
        has_audio: true,
        format_name: "mp4".into(),
        video_codec: Some("h264".into()),
    }
}

#[test]
fn validate_passes_when_metadata_matches_profile() {
    let result = validate("clip.mp4", &sample_metadata(), &sample_profile());
    assert_eq!(result.status, Status::Pass);
    assert!(result.findings.is_empty());
}

#[test]
fn validate_flags_extension_mismatch() {
    let result = validate("clip.mov", &sample_metadata(), &sample_profile());
    assert_eq!(result.status, Status::Fail);
    assert!(result.findings.iter().any(|f| f.code == "EXTENSION_MISMATCH"));
}

#[test]
fn validate_flags_resolution_mismatch() {
    let mut metadata = sample_metadata();
    metadata.width = 1280;
    metadata.height = 720;
    let result = validate("clip.mp4", &metadata, &sample_profile());
    assert_eq!(result.status, Status::Fail);
}

#[test]
fn validate_flags_missing_required_audio() {
    let mut metadata = sample_metadata();
    metadata.has_audio = false;
    let result = validate("clip.mp4", &metadata, &sample_profile());
    assert!(result.findings.iter().any(|f| f.code == "AUDIO_REQUIRED"));
}

#[test]
fn validate_flags_short_duration() {
    let mut metadata = sample_metadata();
    metadata.duration_ns = Reading::Value(2_000_000_000);
    let result = validate("clip.mp4", &metadata, &sample_profile());
    assert!(result.findings.iter().any(|f| f.code == "DURATION_TOO_SHORT"));
}

#[test]
fn extension_check_ignores_case() {
    let result = validate("CLIP.MP4", &sample_metadata(), &sample_profile());
    assert_eq!(result.status, Status::Pass);
}

#[test]
fn probe_duration_reads_float_syntax() {
    assert_eq!(parse_duration_ns("12.5"), Some(Reading::Value(12_500_000_000)));
    assert_eq!(parse_duration_ns("1e3"), Some(Reading::Value(1_000_000_000_000)));
    assert_eq!(parse_duration_ns("2.5E-1"), Some(Reading::Value(250_000_000)));
    assert_eq!(parse_duration_ns("-1.5"), Some(Reading::Value(-1_500_000_000)));
    assert_eq!(parse_duration_ns("+.25"), Some(Reading::Value(250_000_000)));
    assert_eq!(parse_duration_ns("7."), Some(Reading::Value(7_000_000_000)));
    assert_eq!(parse_duration_ns("0.0019"), Some(Reading::Value(1_900_000)));
    assert_eq!(parse_duration_ns("inf"), Some(Reading::Value(i64::MAX)));
    assert_eq!(parse_duration_ns("-Infinity"), Some(Reading::Value(-i64::MAX)));
    assert_eq!(parse_duration_ns("1e400"), Some(Reading::Value(i64::MAX)));
    assert_eq!(parse_duration_ns("1e-400"), Some(Reading::Value(0)));
    assert_eq!(parse_duration_ns("NaN"), Some(Reading::NotANumber));
    assert_eq!(parse_duration_ns(""), None);
    assert_eq!(parse_duration_ns("."), None);
    assert_eq!(parse_duration_ns("1e"), None);
    assert_eq!(parse_duration_ns("1.2.3"), None);
    assert_eq!(parse_duration_ns("12s"), None);
}

#[test]
fn negative_duration_is_too_short_with_its_sign() {
    let mut metadata = sample_metadata();
    metadata.duration_ns = Reading::Value(-1_500_000_000);
    let result = validate("clip.mp4", &metadata, &sample_profile());
    let finding = result.findings.iter().find(|f| f.code == "DURATION_TOO_SHORT").expect("finding");
    assert_eq!(finding.message, "duration -1.50s is below minimum 5.00s");
}

#[test]
fn duration_that_is_not_a_number_is_not_too_short() {
    let mut metadata = sample_metadata();
    metadata.duration_ns = Reading::NotANumber;
    let result = validate("clip.mp4", &metadata, &sample_profile());
    assert_eq!(result.status, Status::Pass);
}

#[test]
fn duration_is_compared_below_the_millisecond() {
    let mut profile = sample_profile();
    profile.min_duration_ns = parse_duration_ns(&10.0006f64.to_string()).unwrap();
    let mut metadata = sample_metadata();
    metadata.duration_ns = parse_duration_ns("10.0006").unwrap();
    assert_eq!(validate("clip.mp4", &metadata, &profile).status, Status::Pass);
    metadata.duration_ns = parse_duration_ns("10.000599").unwrap();
    let result = validate("clip.mp4", &metadata, &profile);
    let finding = result.findings.iter().find(|f| f.code == "DURATION_TOO_SHORT").expect("finding");
    assert_eq!(finding.message, "duration 10.00s is below minimum 10.00s");
}
