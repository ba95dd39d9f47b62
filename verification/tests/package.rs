use mediaqa::float_text::Reading;
use mediaqa::config::Profile;
use mediaqa::package::{discover_packages, validate_package, DeliveryPackage};

#[test]
fn validate_package_flags_missing_captions() {
    let package = DeliveryPackage {
        video: "clip.mp4".into(),
        captions: None,
        thumbnail: Some("clip.jpg".into()),
    };
    let profile = Profile {
        extension: "mp4".into(),
        width: 1920,
        height: 1080,
        require_audio: true,
        min_duration_ns: Reading::Value(1_000_000_000),
        max_silence_ms: 2_000,
        min_mean_volume_db_tenths: -500,
        require_captions: true,
        require_thumbnail: false,
        max_file_size_mb: None,
    };

    let findings = validate_package(&package, &profile);
    assert!(findings.iter().any(|f| f.code == "CAPTIONS_MISSING"));
}

#[test]
fn discover_packages_finds_sidecars() {
    let media = vec!["shots/clip.mp4".to_string()];
    let existing = vec!["shots/clip.vtt".to_string(), "shots/clip.png".to_string()];
    let packages = discover_packages(&media, &existing);
    assert_eq!(packages.len(), 1);
    assert_eq!(packages[0].captions.as_deref(), Some("shots/clip.vtt"));
    assert_eq!(packages[0].thumbnail.as_deref(), Some("shots/clip.png"));
}
