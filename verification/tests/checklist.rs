use mediaqa::checklist::render_checklist;
use mediaqa::config::Profile;

#[test]
fn checklist_includes_resolution() {
    let profile = Profile::default();
    let text = render_checklist("youtube", &profile);
    assert!(text.contains("1920x1080"));
}
