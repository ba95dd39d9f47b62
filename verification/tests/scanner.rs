use mediaqa::scanner::is_media_candidate;
use mediaqa::scanner::{select_media_files, WalkEntry};

#[test]
fn is_media_candidate_accepts_mp4() {
    assert!(is_media_candidate("clip.mp4"));
}

#[test]
fn is_media_candidate_rejects_txt() {
    assert!(!is_media_candidate("notes.txt"));
}

#[test]
fn extension_match_is_case_sensitive() {
    assert!(!is_media_candidate("CLIP.MP4"));
    assert!(is_media_candidate("a/b/c.mkv"));
}

#[test]
fn scan_keeps_media_files_in_walk_order() {
    let entries = vec![
        WalkEntry { path: "root/b.mov".into(), is_file: true },
        WalkEntry { path: "root/folder.mp4".into(), is_file: false },
        WalkEntry { path: "root/notes.txt".into(), is_file: true },
        WalkEntry { path: "root/a.mp4".into(), is_file: true },
    ];
    assert_eq!(select_media_files(&entries), vec!["root/b.mov".to_string(), "root/a.mp4".to_string()]);
}
