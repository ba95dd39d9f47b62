use mediaqa::suggestions::{suggestion_for_code, suggestions_for_findings};
use mediaqa::validate::{Finding, Severity};

#[test]
fn maps_resolution_mismatch_to_suggestion() {
    let findings = vec![Finding { code: "RESOLUTION_MISMATCH".into(), severity: Severity::Fail, message: "bad".into() }];
    let suggestions = suggestions_for_findings(&findings);
    assert_eq!(suggestions.len(), 1);
    assert!(suggestions[0].suggestion.contains("resolution"));
}

#[test]
fn unknown_code_has_no_suggestion() {
    assert!(suggestion_for_code("SOMETHING_ELSE").is_none());
}
