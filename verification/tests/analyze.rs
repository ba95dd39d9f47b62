use mediaqa::analyze::{decode_findings, parse_blackdetect_stderr};
use mediaqa::validate::Severity;

#[test]
fn analyze_black_frames_parses_blackdetect_lines() {
    let findings = parse_blackdetect_stderr(
        "[blackdetect @ 0x1] black_start:0 black_end:1.5 black_duration:1.5\n",
    );
    assert_eq!(findings.len(), 1);
    assert_eq!(findings[0].code, "BLACK_FRAMES");
}

#[test]
fn analyze_black_frames_returns_empty_when_none_found() {
    let findings = parse_blackdetect_stderr("frame= 30 fps=0.0 q=-0.0 Lsize=-0KiB\n");
    assert!(findings.is_empty());
}

#[test]
fn black_frame_finding_keeps_trimmed_line_as_message() {
    let findings = parse_blackdetect_stderr(
        "  [blackdetect @ 0x2] black_start:3 black_end:4 black_duration:1  \nother line\n",
    );
    assert_eq!(findings.len(), 1);
    assert_eq!(findings[0].severity, Severity::Warn);
    assert_eq!(
        findings[0].message,
        "[blackdetect @ 0x2] black_start:3 black_end:4 black_duration:1"
    );
}

#[test]
fn clean_decode_has_no_findings() {
    assert!(decode_findings(true, "").is_empty());
}
