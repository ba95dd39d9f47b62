use mediaqa::float_text::Reading;
use mediaqa::config::{inheritance_is_acyclic, resolve_profiles, AppConfig, NamedEntry, ProfileEntry};

fn entry(inherits: Option<&str>) -> ProfileEntry {
    ProfileEntry {
        inherits: inherits.map(|s| s.to_string()),
        extension: None,
        width: None,
        height: None,
        require_audio: None,
        min_duration_ns: None,
        max_silence_ms: None,
        min_mean_volume_db_tenths: None,
        require_captions: None,
        require_thumbnail: None,
        max_file_size_mb: None,
    }
}

#[test]
fn profile_inheritance_merges_parent_defaults() {
    let mut base = entry(None);
    base.extension = Some("mp4".into());
    base.require_audio = Some(true);
    base.min_duration_ns = Some(Reading::Value(5_000_000_000));
    let mut youtube = entry(Some("base"));
    youtube.width = Some(1920);
    youtube.height = Some(1080);
    let entries = vec![
        NamedEntry { name: "base".into(), entry: base },
        NamedEntry { name: "youtube".into(), entry: youtube },
    ];

    let profiles = resolve_profiles(&entries).expect("profiles resolve");
    let config = AppConfig { profiles };
    let youtube = config.get("youtube").expect("youtube profile");
    assert_eq!(youtube.extension, "mp4");
    assert_eq!(youtube.width, 1920);
    assert_eq!(youtube.min_duration_ns, Reading::Value(5_000_000_000));
}

#[test]
fn missing_parent_is_an_error() {
    let entries = vec![NamedEntry { name: "youtube".into(), entry: entry(Some("nowhere")) }];
    assert!(inheritance_is_acyclic(&entries));
    assert!(resolve_profiles(&entries).is_err());
}

#[test]
fn inheritance_cycle_is_detected() {
    let entries = vec![
        NamedEntry { name: "a".into(), entry: entry(Some("b")) },
        NamedEntry { name: "b".into(), entry: entry(Some("a")) },
    ];
    assert!(!inheritance_is_acyclic(&entries));
}
