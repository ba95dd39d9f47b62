use mediaqa::batch::{check_duplicate_basenames, check_mixed_specs, BatchProbeSnapshot};

fn snapshot(path: &str, width: u32, height: u32, codec: &str) -> BatchProbeSnapshot {
    BatchProbeSnapshot {
        path: path.to_string(),
        width,
        height,
        video_codec: codec.to_string(),
        file_size_bytes: 1_000,
    }
}

#[test]
fn flags_mixed_resolutions() {
    let snapshots = vec![
        snapshot("a.mp4", 1920, 1080, "h264"),
        snapshot("b.mp4", 1280, 720, "h264"),
    ];

    let findings = check_mixed_specs(&snapshots);
    assert!(findings.iter().any(|f| f.code == "BATCH_MIXED_RESOLUTION"));
}

#[test]
fn uniform_batch_has_no_mixed_spec_findings() {
    let snapshots = vec![
        snapshot("a.mp4", 1920, 1080, "h264"),
        snapshot("b.mp4", 1920, 1080, "h264"),
    ];
    assert!(check_mixed_specs(&snapshots).is_empty());
}

#[test]
fn flags_duplicate_basenames_in_different_folders() {
    let snapshots = vec![
        snapshot("day1/clip.mp4", 1920, 1080, "h264"),
        snapshot("day2/clip.mp4", 1920, 1080, "h264"),
    ];
    let findings = check_duplicate_basenames(&snapshots);
    assert!(!findings.is_empty());
}
