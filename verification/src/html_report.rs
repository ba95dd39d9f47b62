use vstd::prelude::*;

use crate::report::{batch_status, BatchReport, FileReport, ReviewState};
use crate::seqs::{join, join_strings, string_views};
use crate::suggestions::{FixSuggestion, FixSuggestionView};
use crate::text::{chars_of, dec, owned, push_char, push_decimal, push_str};
use crate::validate::{Finding, FindingView, Severity, Status};

verus! {

/// How one character is written in HTML text: `&`, `<` and `>` as entities.
pub open spec fn html_escape_char(c: char) -> Seq<char> {
    if c == '&' {
        "&amp;"@
    } else if c == '<' {
        "&lt;"@
    } else if c == '>' {
        "&gt;"@
    } else {
        seq![c]
    }
}

/// `s` with `&`, `<` and `>` written as entities.
pub open spec fn html_escaped(s: Seq<char>) -> Seq<char>
    decreases s.len(),
{
    if s.len() == 0 {
        Seq::empty()
    } else {
        html_escaped(s.drop_last()) + html_escape_char(s.last())
    }
}

/// `s` as HTML text.
pub fn html_escape(s: &str) -> (r: String)
    ensures
        r@ == html_escaped(s@),
{
    let cs = chars_of(s);
    let mut out = String::new();
    let n = cs.len();
    let mut i: usize = 0;
    while i < n
        invariant
            n == cs@.len(),
            cs@ == s@,
            i <= n,
            out@ == html_escaped(s@.take(i as int)),
        decreases n - i,
    {
        let c = cs[i];
        let ghost before = out@;
        if c == '&' {
            push_str(&mut out, "&amp;");
        } else if c == '<' {
            push_str(&mut out, "&lt;");
        } else if c == '>' {
            push_str(&mut out, "&gt;");
        } else {
            push_char(&mut out, c);
        }
        assert(s@.take(i + 1).drop_last() =~= s@.take(i as int));
        assert(out@ =~= before + html_escape_char(c));
        i = i + 1;
    }
    assert(s@.take(n as int) =~= s@);
    out
}

/// The CSS class of a severity (its name in lower case).
pub open spec fn severity_class(s: Severity) -> Seq<char> {
    match s {
        Severity::Warn => "warn"@,
        Severity::Fail => "fail"@,
    }
}

/// The name of a status.
pub open spec fn status_name(s: Status) -> Seq<char> {
    match s {
        Status::Pass => "Pass"@,
        Status::Warn => "Warn"@,
        Status::Fail => "Fail"@,
    }
}

/// The name of a review state.
pub open spec fn review_name(r: ReviewState) -> Seq<char> {
    match r {
        ReviewState::Pass => "Pass"@,
        ReviewState::Warn => "Warn"@,
        ReviewState::NeedsHumanAttention => "NeedsHumanAttention"@,
    }
}

fn push_severity_class(out: &mut String, s: Severity)
    ensures
        final(out)@ == old(out)@ + severity_class(s),
{
    match s {
        Severity::Warn => push_str(out, "warn"),
        Severity::Fail => push_str(out, "fail"),
    }
}

/// Appends the name of a status.
pub fn push_status_name(out: &mut String, s: Status)
    ensures
        final(out)@ == old(out)@ + status_name(s),
{
    match s {
        Status::Pass => push_str(out, "Pass"),
        Status::Warn => push_str(out, "Warn"),
        Status::Fail => push_str(out, "Fail"),
    }
}

/// Appends the name of a review state.
pub fn push_review_name(out: &mut String, r: ReviewState)
    ensures
        final(out)@ == old(out)@ + review_name(r),
{
    match r {
        ReviewState::Pass => push_str(out, "Pass"),
        ReviewState::Warn => push_str(out, "Warn"),
        ReviewState::NeedsHumanAttention => push_str(out, "NeedsHumanAttention"),
    }
}

/// The list item of a finding.
pub open spec fn finding_item(f: FindingView) -> Seq<char> {
    "<li class=\""@ + severity_class(f.severity) + "\"><strong>"@ + f.code + "</strong>: "@
        + html_escaped(f.message) + "</li>"@
}

/// The list item of a suggestion.
pub open spec fn suggestion_item(s: FixSuggestionView) -> Seq<char> {
    "<li><strong>"@ + s.code + "</strong>: "@ + html_escaped(s.suggestion) + "</li>"@
}

/// List items one per line, or a single "None" item when there are none.
pub open spec fn items_or_none(items: Seq<Seq<char>>) -> Seq<char> {
    if items.len() == 0 {
        "<li>None</li>"@
    } else {
        join(items, "\n"@)
    }
}

/// The error paragraph of a file, empty when it has no error.
pub open spec fn error_part(error: Option<Seq<char>>) -> Seq<char> {
    match error {
        Some(e) => "<p class=\"error\">Error: "@ + html_escaped(e) + "</p>"@,
        None => Seq::empty(),
    }
}

/// The error of a file report, as text.
pub open spec fn error_view(error: Option<String>) -> Option<Seq<char>> {
    match error {
        Some(e) => Some(e@),
        None => None,
    }
}

/// The heading of a file's section: its path, status and review state.
pub open spec fn section_head(f: FileReport) -> Seq<char> {
    "<section class=\"file\"><h2>"@ + html_escaped(f.path@) + "</h2><p>Status: "@ + status_name(f.status)
        + " | Review: "@ + review_name(f.review_state) + "</p>"@
}

/// The lists of a file's section: its findings and its suggestions.
pub open spec fn section_lists(f: FileReport) -> Seq<char> {
    "<h3>Findings</h3><ul>"@ + items_or_none(f.findings.deep_view().map_values(|x: FindingView| finding_item(x)))
        + "</ul><h3>Suggestions</h3><ul>"@ + items_or_none(
        f.suggestions.deep_view().map_values(|x: FixSuggestionView| suggestion_item(x)),
    ) + "</ul></section>"@
}

/// The section of the page for one file.
pub open spec fn file_section(f: FileReport) -> Seq<char> {
    section_head(f) + error_part(error_view(f.error)) + section_lists(f)
}

/// The sections of all files, one after the other.
pub open spec fn file_sections(files: Seq<FileReport>) -> Seq<char>
    decreases files.len(),
{
    if files.len() == 0 {
        Seq::empty()
    } else {
        file_sections(files.drop_last()) + file_section(files.last())
    }
}

/// The page up to the file sections: the head, then the batch summary
/// ending with the overall status.
pub open spec fn page_head(r: BatchReport) -> Seq<char> {
    let profile = html_escaped(r.profile@);
    "<!DOCTYPE html>\n<html lang=\"en\">\n<head>\n  <meta charset=\"utf-8\">\n  <title>Media QA Report - "@
        + profile + "</title>\n  <style>\n    body { font-family: sans-serif; margin: 2rem; }\n    .summary, .file { border: 1px solid #ddd; padding: 1rem; margin-bottom: 1rem; }\n    .fail { color: #b00020; }\n    .warn { color: #9a6700; }\n    .error { color: #b00020; }\n  </style>\n</head>\n<body>\n  <h1>Media QA Report</h1>\n  <section class=\"summary\">\n    <p><strong>Profile:</strong> "@
        + profile + "</p>\n    <p><strong>Total:</strong> "@ + dec(r.summary.total as nat)
        + " |\n       <strong>Passed:</strong> "@ + dec(r.summary.passed as nat)
        + " |\n       <strong>Warned:</strong> "@ + dec(r.summary.warned as nat)
        + " |\n       <strong>Failed:</strong> "@ + dec(r.summary.failed as nat)
        + " |\n       <strong>Errors:</strong> "@ + dec(r.summary.errors as nat)
        + "</p>\n    <p><strong>Overall:</strong> "@ + status_name(batch_status(r))
        + "</p>\n  </section>\n  "@
}

/// The whole HTML page of a batch report.
pub open spec fn html_page(r: BatchReport) -> Seq<char> {
    page_head(r) + file_sections(r.files@) + "\n</body>\n</html>"@
}

fn finding_items(findings: &Vec<Finding>) -> (r: Vec<String>)
    ensures
        string_views(r@) == findings.deep_view().map_values(|x: FindingView| finding_item(x)),
{
    let mut out: Vec<String> = Vec::new();
    let n = findings.len();
    let mut i: usize = 0;
    while i < n
        invariant
            n == findings@.len(),
            i <= n,
            string_views(out@) == findings.deep_view().take(i as int).map_values(|x: FindingView| finding_item(x)),
        decreases n - i,
    {
        let f = &findings[i];
        let mut s = owned("<li class=\"");
        push_severity_class(&mut s, f.severity);
        push_str(&mut s, "\"><strong>");
        push_str(&mut s, f.code.as_str());
        push_str(&mut s, "</strong>: ");
        let m = html_escape(f.message.as_str());
        push_str(&mut s, m.as_str());
        push_str(&mut s, "</li>");
        let ghost before = string_views(out@);
        out.push(s);
        proof {
            assert(findings.deep_view()[i as int] == f@);
            assert(findings.deep_view().take(i + 1) =~= findings.deep_view().take(i as int).push(f@));
            assert(string_views(out@) =~= before.push(finding_item(f@)));
        }
        i = i + 1;
    }
    assert(findings.deep_view().take(n as int) =~= findings.deep_view());
    out
}

fn suggestion_items(suggestions: &Vec<FixSuggestion>) -> (r: Vec<String>)
    ensures
        string_views(r@) == suggestions.deep_view().map_values(|x: FixSuggestionView| suggestion_item(x)),
{
    let mut out: Vec<String> = Vec::new();
    let n = suggestions.len();
    let mut i: usize = 0;
    while i < n
        invariant
            n == suggestions@.len(),
            i <= n,
            string_views(out@) == suggestions.deep_view().take(i as int).map_values(
                |x: FixSuggestionView| suggestion_item(x),
            ),
        decreases n - i,
    {
        let f = &suggestions[i];
        let mut s = owned("<li><strong>");
        push_str(&mut s, f.code.as_str());
        push_str(&mut s, "</strong>: ");
        let m = html_escape(f.suggestion.as_str());
        push_str(&mut s, m.as_str());
        push_str(&mut s, "</li>");
        let ghost before = string_views(out@);
        out.push(s);
        proof {
            assert(suggestions.deep_view()[i as int] == f@);
            assert(suggestions.deep_view().take(i + 1) =~= suggestions.deep_view().take(i as int).push(f@));
            assert(string_views(out@) =~= before.push(suggestion_item(f@)));
        }
        i = i + 1;
    }
    assert(suggestions.deep_view().take(n as int) =~= suggestions.deep_view());
    out
}

fn push_items_or_none(out: &mut String, items: &Vec<String>)
    ensures
        final(out)@ == old(out)@ + items_or_none(string_views(items@)),
{
    if items.len() == 0 {
        push_str(out, "<li>None</li>");
    } else {
        let joined = join_strings(items, "\n");
        push_str(out, joined.as_str());
    }
}

fn push_section_head(out: &mut String, f: &FileReport)
    ensures
        final(out)@ == old(out)@ + section_head(*f),
{
    let ghost o = out@;
    push_str(out, "<section class=\"file\"><h2>");
    let p = html_escape(f.path.as_str());
    push_str(out, p.as_str());
    push_str(out, "</h2><p>Status: ");
    push_status_name(out, f.status);
    push_str(out, " | Review: ");
    push_review_name(out, f.review_state);
    push_str(out, "</p>");
    assert(out@ =~= o + section_head(*f));
}

fn push_error_part(out: &mut String, error: &Option<String>)
    ensures
        final(out)@ == old(out)@ + error_part(error_view(*error)),
{
    let ghost o = out@;
    match error {
        Some(e) => {
            push_str(out, "<p class=\"error\">Error: ");
            let esc = html_escape(e.as_str());
            push_str(out, esc.as_str());
            push_str(out, "</p>");
            assert(out@ =~= o + error_part(error_view(*error)));
        },
        None => {
            assert(out@ =~= o + error_part(error_view(*error)));
        },
    }
}

fn push_section_lists(out: &mut String, f: &FileReport)
    ensures
        final(out)@ == old(out)@ + section_lists(*f),
{
    let ghost o = out@;
    push_str(out, "<h3>Findings</h3><ul>");
    let fi = finding_items(&f.findings);
    push_items_or_none(out, &fi);
    push_str(out, "</ul><h3>Suggestions</h3><ul>");
    let si = suggestion_items(&f.suggestions);
    push_items_or_none(out, &si);
    push_str(out, "</ul></section>");
    assert(out@ =~= o + section_lists(*f));
}

fn push_file_section(out: &mut String, f: &FileReport)
    ensures
        final(out)@ == old(out)@ + file_section(*f),
{
    let ghost o = out@;
    push_section_head(out, f);
    push_error_part(out, &f.error);
    push_section_lists(out, f);
    assert(out@ =~= o + file_section(*f));
}

/// The HTML page of a batch report: a summary of the batch, then a section
/// per file with its status, error, findings and suggestions.
pub fn render_html(report: &BatchReport) -> (r: String)
    ensures
        r@ == html_page(*report),
{
    let mut rows = String::new();
    let n = report.files.len();
    let mut i: usize = 0;
    while i < n
        invariant
            n == report.files@.len(),
            i <= n,
            rows@ == file_sections(report.files@.take(i as int)),
        decreases n - i,
    {
        push_file_section(&mut rows, &report.files[i]);
        assert(report.files@.take(i + 1).drop_last() =~= report.files@.take(i as int));
        i = i + 1;
    }
    assert(report.files@.take(n as int) =~= report.files@);
    let profile = html_escape(report.profile.as_str());
    let mut out = owned(
        "<!DOCTYPE html>\n<html lang=\"en\">\n<head>\n  <meta charset=\"utf-8\">\n  <title>Media QA Report - ",
    );
    push_str(&mut out, profile.as_str());
    push_str(
        &mut out,
        "</title>\n  <style>\n    body { font-family: sans-serif; margin: 2rem; }\n    .summary, .file { border: 1px solid #ddd; padding: 1rem; margin-bottom: 1rem; }\n    .fail { color: #b00020; }\n    .warn { color: #9a6700; }\n    .error { color: #b00020; }\n  </style>\n</head>\n<body>\n  <h1>Media QA Report</h1>\n  <section class=\"summary\">\n    <p><strong>Profile:</strong> ",
    );
    push_str(&mut out, profile.as_str());
    push_str(&mut out, "</p>\n    <p><strong>Total:</strong> ");
    push_decimal(&mut out, report.summary.total as u64);
    push_str(&mut out, " |\n       <strong>Passed:</strong> ");
    push_decimal(&mut out, report.summary.passed as u64);
    push_str(&mut out, " |\n       <strong>Warned:</strong> ");
    push_decimal(&mut out, report.summary.warned as u64);
    push_str(&mut out, " |\n       <strong>Failed:</strong> ");
    push_decimal(&mut out, report.summary.failed as u64);
    push_str(&mut out, " |\n       <strong>Errors:</strong> ");
    push_decimal(&mut out, report.summary.errors as u64);
    push_str(&mut out, "</p>\n    <p><strong>Overall:</strong> ");
    push_status_name(&mut out, report.overall_status());
    push_str(&mut out, "</p>\n  </section>\n  ");
    push_str(&mut out, rows.as_str());
    assert(out@ =~= page_head(*report) + file_sections(report.files@));
    push_str(&mut out, "\n</body>\n</html>");
    assert(out@ =~= html_page(*report));
    out
}

/// Escaped text holds no `<` or `>`: it cannot open or close a tag.
pub proof fn law_escaped_text_has_no_angle_brackets(s: Seq<char>)
    ensures
        forall|i: int| 0 <= i < html_escaped(s).len() ==> #[trigger] html_escaped(s)[i] != '<' && html_escaped(s)[i] != '>',
    decreases s.len(),
{
    if s.len() > 0 {
        let t = s.drop_last();
        law_escaped_text_has_no_angle_brackets(t);
        let a = html_escaped(t);
        let b = html_escape_char(s.last());
        reveal_strlit("&amp;");
        reveal_strlit("&lt;");
        reveal_strlit("&gt;");
        assert forall|i: int| 0 <= i < html_escaped(s).len() implies #[trigger] html_escaped(s)[i] != '<' && html_escaped(s)[i] != '>' by {
            if i < a.len() {
                assert(html_escaped(s)[i] == a[i]);
            } else {
                assert(html_escaped(s)[i] == b[i - a.len()]);
            }
        }
    }
}

proof fn lemma_file_sections_concat(files: Seq<FileReport>)
    ensures
        file_sections(files) == crate::seqs::concat(files.map_values(|f: FileReport| file_section(f))),
    decreases files.len(),
{
    if files.len() > 0 {
        lemma_file_sections_concat(files.drop_last());
        assert(files.map_values(|f: FileReport| file_section(f)).drop_last() =~= files.drop_last().map_values(
            |f: FileReport| file_section(f),
        ));
    }
}

/// The page is its head (ending with the overall status), then one section
/// per file in order, then the closing tags. Each file's section opens with
/// its escaped path as heading, then its status and review state; an error
/// paragraph follows exactly when the file has an error; then its findings
/// and suggestions.
pub proof fn law_page_has_a_section_per_file(r: BatchReport)
    ensures
        html_page(r) == page_head(r) + crate::seqs::concat(r.files@.map_values(|f: FileReport| file_section(f)))
            + "\n</body>\n</html>"@,
        forall|i: int| 0 <= i < r.files@.len() ==> {
            let f = #[trigger] r.files@[i];
            &&& file_section(f) == "<section class=\"file\"><h2>"@ + html_escaped(f.path@) + "</h2><p>Status: "@
                + status_name(f.status) + " | Review: "@ + review_name(f.review_state) + "</p>"@ + error_part(
                error_view(f.error),
            ) + section_lists(f)
            &&& (f.error is Some <==> error_part(error_view(f.error)).len() > 0)
            &&& f.error matches Some(e) ==> error_part(error_view(f.error)) == "<p class=\"error\">Error: "@
                + html_escaped(e@) + "</p>"@
        },
{
    lemma_file_sections_concat(r.files@);
    reveal_strlit("<p class=\"error\">Error: ");
}

/// `s` as written by HTML text: `&amp;`, `&lt;` and `&gt;` read back as
/// `&`, `<` and `>`.
pub open spec fn html_unescaped(s: Seq<char>) -> Seq<char>
    decreases s.len(),
{
    if s.len() == 0 {
        s
    } else if s.len() >= 5 && s.take(5) == "&amp;"@ {
        seq!['&'] + html_unescaped(s.skip(5))
    } else if s.len() >= 4 && s.take(4) == "&lt;"@ {
        seq!['<'] + html_unescaped(s.skip(4))
    } else if s.len() >= 4 && s.take(4) == "&gt;"@ {
        seq!['>'] + html_unescaped(s.skip(4))
    } else {
        seq![s[0]] + html_unescaped(s.drop_first())
    }
}

proof fn lemma_escaped_front(s: Seq<char>)
    requires
        s.len() > 0,
    ensures
        html_escaped(s) == html_escape_char(s[0]) + html_escaped(s.drop_first()),
    decreases s.len(),
{
    if s.len() > 1 {
        lemma_escaped_front(s.drop_last());
        assert(s.drop_last().drop_first() =~= s.drop_first().drop_last());
        assert(s.drop_first().last() == s.last());
        assert(html_escaped(s) =~= html_escape_char(s[0]) + html_escaped(s.drop_first()));
    } else {
        assert(s.drop_first() =~= Seq::<char>::empty());
        assert(s.drop_last() =~= Seq::<char>::empty());
        assert(html_escaped(s) =~= html_escape_char(s[0]) + html_escaped(s.drop_first()));
    }
}

proof fn lemma_unescape_char(c: char, rest: Seq<char>)
    ensures
        html_unescaped(html_escape_char(c) + rest) == seq![c] + html_unescaped(rest),
{
    reveal_strlit("&amp;");
    reveal_strlit("&lt;");
    reveal_strlit("&gt;");
    let t = html_escape_char(c) + rest;
    if c == '&' {
        assert(t.take(5) =~= "&amp;"@);
        assert(t.skip(5) =~= rest);
    } else if c == '<' {
        assert(t.len() >= 5 ==> t.take(5) != "&amp;"@) by {
            if t.len() >= 5 {
                assert(t.take(5)[1] == 'l');
            }
        }
        assert(t.take(4) =~= "&lt;"@);
        assert(t.skip(4) =~= rest);
    } else if c == '>' {
        assert(t.len() >= 5 ==> t.take(5) != "&amp;"@) by {
            if t.len() >= 5 {
                assert(t.take(5)[1] == 'g');
            }
        }
        assert(t.take(4) != "&lt;"@) by {
            assert(t.take(4)[1] == 'g');
        }
        assert(t.take(4) =~= "&gt;"@);
        assert(t.skip(4) =~= rest);
    } else {
        assert(t[0] == c);
        assert(t.len() >= 5 ==> t.take(5) != "&amp;"@) by {
            if t.len() >= 5 {
                assert(t.take(5)[0] == c);
            }
        }
        assert(t.len() >= 4 ==> t.take(4) != "&lt;"@) by {
            if t.len() >= 4 {
                assert(t.take(4)[0] == c);
            }
        }
        assert(t.len() >= 4 ==> t.take(4) != "&gt;"@) by {
            if t.len() >= 4 {
                assert(t.take(4)[0] == c);
            }
        }
        assert(t.drop_first() =~= rest);
    }
}

/// Escaping changes nothing in text without `&`, `<` or `>`, and reading
/// escaped text back gives the text it came from.
pub proof fn law_escaping_round_trips(s: Seq<char>)
    ensures
        (forall|i: int| 0 <= i < s.len() ==> #[trigger] s[i] != '&' && s[i] != '<' && s[i] != '>') ==> html_escaped(s)
            == s,
        html_unescaped(html_escaped(s)) == s,
    decreases s.len(),
{
    if s.len() > 0 {
        law_escaping_round_trips(s.drop_first());
        lemma_escaped_front(s);
        lemma_unescape_char(s[0], html_escaped(s.drop_first()));
        assert(seq![s[0]] + s.drop_first() =~= s);
        if forall|i: int| 0 <= i < s.len() ==> #[trigger] s[i] != '&' && s[i] != '<' && s[i] != '>' {
            assert(forall|i: int| 0 <= i < s.drop_first().len() ==> #[trigger] s.drop_first()[i] != '&' && s.drop_first()[i] != '<' && s.drop_first()[i] != '>') by {
                assert forall|i: int| 0 <= i < s.drop_first().len() implies #[trigger] s.drop_first()[i] != '&' && s.drop_first()[i] != '<' && s.drop_first()[i] != '>' by {
                    assert(s.drop_first()[i] == s[i + 1]);
                }
            }
            assert(s[0] != '&' && s[0] != '<' && s[0] != '>');
            assert(html_escape_char(s[0]) == seq![s[0]]);
        }
    } else {
        assert(html_unescaped(Seq::<char>::empty()) == Seq::<char>::empty());
    }
}

// ---------------------------------------------------------------------------
// Counting the file sections of a page
// ---------------------------------------------------------------------------

/// The text that opens the section of one file.
pub open spec fn section_mark() -> Seq<char> {
    "<section class=\"file\">"@
}

/// How many times the section opening occurs in `s`, at any position.
pub open spec fn openings(s: Seq<char>) -> nat
    decreases s.len(),
{
    if s.len() < 22 {
        0
    } else {
        openings(s.drop_first()) + if s.take(22) == section_mark() {
            1nat
        } else {
            0nat
        }
    }
}

/// Every `<` of `s` is followed, within `s`, by a character that shows it
/// does not open a file section.
pub open spec fn opens_no_section(s: Seq<char>) -> bool {
    forall|j: int|
        0 <= j < s.len() && #[trigger] s[j] == '<' ==> (j + 1 < s.len() && s[j + 1] != 's') || (j + 2
            < s.len() && s[j + 2] != 'e') || (j + 16 < s.len() && s[j + 16] != 'f')
}

/// `s` holds no `<`.
pub open spec fn no_lt(s: Seq<char>) -> bool {
    forall|j: int| 0 <= j < s.len() ==> #[trigger] s[j] != '<'
}

proof fn lemma_mark_chars()
    ensures
        section_mark().len() == 22,
        section_mark()[0] == '<',
        section_mark()[1] == 's',
        section_mark()[2] == 'e',
        section_mark()[16] == 'f',
        section_mark()[21] == '>',
        forall|k: int| 0 <= k < 21 ==> #[trigger] section_mark()[k] != '>',
        no_lt(section_mark().drop_first()),
{
    reveal_strlit("<section class=\"file\">");
}

proof fn lemma_safe_concat(a: Seq<char>, b: Seq<char>)
    requires
        opens_no_section(a),
        opens_no_section(b),
    ensures
        opens_no_section(a + b),
{
    let c = a + b;
    assert forall|j: int| 0 <= j < c.len() && #[trigger] c[j] == '<' implies (j + 1 < c.len() && c[j + 1] != 's')
        || (j + 2 < c.len() && c[j + 2] != 'e') || (j + 16 < c.len() && c[j + 16] != 'f') by {
        if j < a.len() {
            assert(a[j] == '<');
            if j + 1 < a.len() && a[j + 1] != 's' {
                assert(c[j + 1] == a[j + 1]);
            } else if j + 2 < a.len() && a[j + 2] != 'e' {
                assert(c[j + 2] == a[j + 2]);
            } else {
                assert(c[j + 16] == a[j + 16]);
            }
        } else {
            let k = j - a.len();
            assert(b[k] == '<');
            if k + 1 < b.len() && b[k + 1] != 's' {
                assert(c[j + 1] == b[k + 1]);
            } else if k + 2 < b.len() && b[k + 2] != 'e' {
                assert(c[j + 2] == b[k + 2]);
            } else {
                assert(c[j + 16] == b[k + 16]);
            }
        }
    }
}

proof fn lemma_no_lt_safe(s: Seq<char>)
    requires
        no_lt(s),
    ensures
        opens_no_section(s),
{
}

/// Text after a prefix that opens no section holds the openings of the
/// whole.
proof fn lemma_openings_after_safe(a: Seq<char>, b: Seq<char>)
    requires
        opens_no_section(a),
    ensures
        openings(a + b) == openings(b),
    decreases a.len(),
{
    lemma_mark_chars();
    if a.len() > 0 {
        let a2 = a.drop_first();
        assert forall|j: int| 0 <= j < a2.len() && #[trigger] a2[j] == '<' implies (j + 1 < a2.len() && a2[j + 1] != 's')
            || (j + 2 < a2.len() && a2[j + 2] != 'e') || (j + 16 < a2.len() && a2[j + 16] != 'f') by {
            assert(a[j + 1] == a2[j]);
            if j + 2 < a.len() && a[j + 2] != 's' {
                assert(a2[j + 1] == a[j + 2]);
            } else if j + 3 < a.len() && a[j + 3] != 'e' {
                assert(a2[j + 2] == a[j + 3]);
            } else {
                assert(a2[j + 16] == a[j + 17]);
            }
        }
        lemma_openings_after_safe(a2, b);
        assert((a + b).drop_first() =~= a2 + b);
        if (a + b).len() >= 22 && (a + b).take(22) == section_mark() {
            assert((a + b)[0] == '<');
            assert(a[0] == '<');
            if 1 < a.len() && a[1] != 's' {
                assert((a + b).take(22)[1] == a[1]);
            } else if 2 < a.len() && a[2] != 'e' {
                assert((a + b).take(22)[2] == a[2]);
            } else {
                assert((a + b).take(22)[16] == a[16]);
            }
        }
    } else {
        assert(a + b =~= b);
    }
}

/// Text that opens no section has no openings.
proof fn lemma_safe_has_no_openings(a: Seq<char>)
    requires
        opens_no_section(a),
    ensures
        openings(a) == 0,
{
    lemma_openings_after_safe(a, Seq::<char>::empty());
    assert(a + Seq::<char>::empty() =~= a);
}

/// Openings add up across a join after text that ends with `>`.
proof fn lemma_openings_concat(a: Seq<char>, b: Seq<char>)
    requires
        a.len() == 0 || a.last() == '>',
    ensures
        openings(a + b) == openings(a) + openings(b),
    decreases a.len(),
{
    lemma_mark_chars();
    if a.len() > 0 {
        let a2 = a.drop_first();
        if a2.len() > 0 {
            assert(a2.last() == a.last());
        }
        lemma_openings_concat(a2, b);
        assert((a + b).drop_first() =~= a2 + b);
        if a.len() >= 22 {
            assert((a + b).take(22) =~= a.take(22));
        } else if (a + b).len() >= 22 && (a + b).take(22) == section_mark() {
            assert((a + b).take(22)[a.len() - 1] == a.last());
        }
    } else {
        assert(a + b =~= b);
    }
}

/// Text that begins with the section opening and continues with text that
/// opens none has one opening.
proof fn lemma_one_opening(rest: Seq<char>)
    requires
        opens_no_section(rest),
    ensures
        openings(section_mark() + rest) == 1,
{
    lemma_mark_chars();
    let s = section_mark() + rest;
    assert(s.take(22) =~= section_mark());
    assert(s.drop_first() =~= section_mark().drop_first() + rest);
    lemma_no_lt_safe(section_mark().drop_first());
    lemma_openings_after_safe(section_mark().drop_first(), rest);
    lemma_safe_has_no_openings(rest);
}

proof fn lemma_section_literals()
    ensures
        opens_no_section("</h2><p>Status: "@),
        opens_no_section(" | Review: "@),
        opens_no_section("</p>"@),
        opens_no_section("<p class=\"error\">Error: "@),
        opens_no_section("<h3>Findings</h3><ul>"@),
        opens_no_section("</ul><h3>Suggestions</h3><ul>"@),
        opens_no_section("</ul></section>"@),
        opens_no_section("<li class=\""@),
        opens_no_section("\"><strong>"@),
        opens_no_section("</strong>: "@),
        opens_no_section("</li>"@),
        opens_no_section("<li><strong>"@),
        opens_no_section("<li>None</li>"@),
        opens_no_section("\n"@),
        opens_no_section("warn"@),
        opens_no_section("fail"@),
        opens_no_section("Pass"@),
        opens_no_section("Warn"@),
        opens_no_section("Fail"@),
        opens_no_section("NeedsHumanAttention"@),
{
    reveal_strlit("</h2><p>Status: ");
    assert(opens_no_section("</h2><p>Status: "@));
    reveal_strlit(" | Review: ");
    assert(opens_no_section(" | Review: "@));
    reveal_strlit("</p>");
    assert(opens_no_section("</p>"@));
    reveal_strlit("<p class=\"error\">Error: ");
    assert(opens_no_section("<p class=\"error\">Error: "@));
    reveal_strlit("<h3>Findings</h3><ul>");
    assert(opens_no_section("<h3>Findings</h3><ul>"@));
    reveal_strlit("</ul><h3>Suggestions</h3><ul>");
    assert(opens_no_section("</ul><h3>Suggestions</h3><ul>"@));
    reveal_strlit("</ul></section>");
    assert(opens_no_section("</ul></section>"@));
    reveal_strlit("<li class=\"");
    assert(opens_no_section("<li class=\""@));
    reveal_strlit("\"><strong>");
    assert(opens_no_section("\"><strong>"@));
    reveal_strlit("</strong>: ");
    assert(opens_no_section("</strong>: "@));
    reveal_strlit("</li>");
    assert(opens_no_section("</li>"@));
    reveal_strlit("<li><strong>");
    assert(opens_no_section("<li><strong>"@));
    reveal_strlit("<li>None</li>");
    assert(opens_no_section("<li>None</li>"@));
    reveal_strlit("\n");
    assert(opens_no_section("\n"@));
    reveal_strlit("warn");
    assert(opens_no_section("warn"@));
    reveal_strlit("fail");
    assert(opens_no_section("fail"@));
    reveal_strlit("Pass");
    assert(opens_no_section("Pass"@));
    reveal_strlit("Warn");
    assert(opens_no_section("Warn"@));
    reveal_strlit("Fail");
    assert(opens_no_section("Fail"@));
    reveal_strlit("NeedsHumanAttention");
    assert(opens_no_section("NeedsHumanAttention"@));
}

proof fn lemma_head_literals()
    ensures
        opens_no_section("<!DOCTYPE html>\n<html lang=\"en\">\n<head>\n  <meta charset=\"utf-8\">\n  <title>Media QA Report - "@),
        opens_no_section("</title>\n  <style>\n    body { font-family: sans-serif; margin: 2rem; }\n    .summary, .file { border: 1px solid #ddd; padding: 1rem; margin-bottom: 1rem; }\n    .fail { color: #b00020; }\n    .warn { color: #9a6700; }\n    .error { color: #b00020; }\n  </style>\n</head>\n<body>\n  <h1>Media QA Report</h1>\n  <section class=\"summary\">\n    <p><strong>Profile:</strong> "@),
        opens_no_section("</p>\n    <p><strong>Total:</strong> "@),
        opens_no_section(" |\n       <strong>Passed:</strong> "@),
        opens_no_section(" |\n       <strong>Warned:</strong> "@),
        opens_no_section(" |\n       <strong>Failed:</strong> "@),
        opens_no_section(" |\n       <strong>Errors:</strong> "@),
        opens_no_section("</p>\n    <p><strong>Overall:</strong> "@),
        opens_no_section("</p>\n  </section>\n  "@),
{
    reveal_strlit("<!DOCTYPE html>\n<html lang=\"en\">\n<head>\n  <meta charset=\"utf-8\">\n  <title>Media QA Report - ");
    assert(opens_no_section("<!DOCTYPE html>\n<html lang=\"en\">\n<head>\n  <meta charset=\"utf-8\">\n  <title>Media QA Report - "@));
    reveal_strlit("</title>\n  <style>\n    body { font-family: sans-serif; margin: 2rem; }\n    .summary, .file { border: 1px solid #ddd; padding: 1rem; margin-bottom: 1rem; }\n    .fail { color: #b00020; }\n    .warn { color: #9a6700; }\n    .error { color: #b00020; }\n  </style>\n</head>\n<body>\n  <h1>Media QA Report</h1>\n  <section class=\"summary\">\n    <p><strong>Profile:</strong> ");
    assert(opens_no_section("</title>\n  <style>\n    body { font-family: sans-serif; margin: 2rem; }\n    .summary, .file { border: 1px solid #ddd; padding: 1rem; margin-bottom: 1rem; }\n    .fail { color: #b00020; }\n    .warn { color: #9a6700; }\n    .error { color: #b00020; }\n  </style>\n</head>\n<body>\n  <h1>Media QA Report</h1>\n  <section class=\"summary\">\n    <p><strong>Profile:</strong> "@));
    reveal_strlit("</p>\n    <p><strong>Total:</strong> ");
    assert(opens_no_section("</p>\n    <p><strong>Total:</strong> "@));
    reveal_strlit(" |\n       <strong>Passed:</strong> ");
    assert(opens_no_section(" |\n       <strong>Passed:</strong> "@));
    reveal_strlit(" |\n       <strong>Warned:</strong> ");
    assert(opens_no_section(" |\n       <strong>Warned:</strong> "@));
    reveal_strlit(" |\n       <strong>Failed:</strong> ");
    assert(opens_no_section(" |\n       <strong>Failed:</strong> "@));
    reveal_strlit(" |\n       <strong>Errors:</strong> ");
    assert(opens_no_section(" |\n       <strong>Errors:</strong> "@));
    reveal_strlit("</p>\n    <p><strong>Overall:</strong> ");
    assert(opens_no_section("</p>\n    <p><strong>Overall:</strong> "@));
    reveal_strlit("</p>\n  </section>\n  ");
    assert(opens_no_section("</p>\n  </section>\n  "@));
}

proof fn lemma_escaped_safe(s: Seq<char>)
    ensures
        opens_no_section(html_escaped(s)),
{
    law_escaped_text_has_no_angle_brackets(s);
}

proof fn lemma_dec_safe(n: nat)
    ensures
        no_lt(dec(n)),
        opens_no_section(dec(n)),
    decreases n,
{
    if n >= 10 {
        lemma_dec_safe(n / 10);
        let d = dec(n / 10);
        let e = d.push(crate::text::digit_char(n % 10));
        assert forall|j: int| 0 <= j < e.len() implies #[trigger] e[j] != '<' by {
            if j < d.len() {
                assert(e[j] == d[j]);
            }
        }
    }
}

/// The text pieces of a section are free of `<` where they come from the
/// report (codes are taken as they are).
pub open spec fn plain_codes(f: FileReport) -> bool {
    &&& forall|k: int| 0 <= k < f.findings@.len() ==> no_lt(#[trigger] f.findings@[k].code@)
    &&& forall|k: int| 0 <= k < f.suggestions@.len() ==> no_lt(#[trigger] f.suggestions@[k].code@)
}

proof fn lemma_join_safe(items: Seq<Seq<char>>)
    requires
        forall|k: int| 0 <= k < items.len() ==> opens_no_section(#[trigger] items[k]),
    ensures
        opens_no_section(join(items, "\n"@)),
    decreases items.len(),
{
    lemma_section_literals();
    if items.len() > 1 {
        let t = items.drop_last();
        assert forall|k: int| 0 <= k < t.len() implies opens_no_section(#[trigger] t[k]) by {
            assert(t[k] == items[k]);
        }
        lemma_join_safe(t);
        assert(opens_no_section(items[items.len() - 1]));
        lemma_safe_concat(join(t, "\n"@), "\n"@);
        lemma_safe_concat(join(t, "\n"@) + "\n"@, items.last());
    } else if items.len() == 1 {
        assert(opens_no_section(items[0]));
    }
}

proof fn lemma_finding_item_safe(f: FindingView)
    requires
        no_lt(f.code),
    ensures
        opens_no_section(finding_item(f)),
{
    lemma_section_literals();
    lemma_escaped_safe(f.message);
    lemma_safe_concat("<li class=\""@, severity_class(f.severity));
    let a = "<li class=\""@ + severity_class(f.severity);
    lemma_safe_concat(a, "\"><strong>"@);
    let b = a + "\"><strong>"@;
    lemma_safe_concat(b, f.code);
    let c = b + f.code;
    lemma_safe_concat(c, "</strong>: "@);
    let d = c + "</strong>: "@;
    lemma_safe_concat(d, html_escaped(f.message));
    lemma_safe_concat(d + html_escaped(f.message), "</li>"@);
}

proof fn lemma_suggestion_item_safe(s: FixSuggestionView)
    requires
        no_lt(s.code),
    ensures
        opens_no_section(suggestion_item(s)),
{
    lemma_section_literals();
    lemma_escaped_safe(s.suggestion);
    lemma_safe_concat("<li><strong>"@, s.code);
    let a = "<li><strong>"@ + s.code;
    lemma_safe_concat(a, "</strong>: "@);
    let b = a + "</strong>: "@;
    lemma_safe_concat(b, html_escaped(s.suggestion));
    lemma_safe_concat(b + html_escaped(s.suggestion), "</li>"@);
}

proof fn lemma_lists_safe(f: FileReport)
    requires
        plain_codes(f),
    ensures
        opens_no_section(section_lists(f)),
{
    lemma_section_literals();
    let fi = f.findings.deep_view().map_values(|x: FindingView| finding_item(x));
    let si = f.suggestions.deep_view().map_values(|x: FixSuggestionView| suggestion_item(x));
    assert forall|k: int| 0 <= k < fi.len() implies opens_no_section(#[trigger] fi[k]) by {
        assert(f.findings.deep_view()[k] == f.findings@[k]@);
        assert(no_lt(f.findings@[k].code@));
        lemma_finding_item_safe(f.findings.deep_view()[k]);
    }
    assert forall|k: int| 0 <= k < si.len() implies opens_no_section(#[trigger] si[k]) by {
        assert(f.suggestions.deep_view()[k] == f.suggestions@[k]@);
        assert(no_lt(f.suggestions@[k].code@));
        lemma_suggestion_item_safe(f.suggestions.deep_view()[k]);
    }
    if fi.len() > 0 {
        lemma_join_safe(fi);
    }
    if si.len() > 0 {
        lemma_join_safe(si);
    }
    let x = items_or_none(fi);
    let y = items_or_none(si);
    lemma_safe_concat("<h3>Findings</h3><ul>"@, x);
    let a = "<h3>Findings</h3><ul>"@ + x;
    lemma_safe_concat(a, "</ul><h3>Suggestions</h3><ul>"@);
    let b = a + "</ul><h3>Suggestions</h3><ul>"@;
    lemma_safe_concat(b, y);
    lemma_safe_concat(b + y, "</ul></section>"@);
}

proof fn lemma_error_part_safe(e: Option<Seq<char>>)
    ensures
        opens_no_section(error_part(e)),
{
    lemma_section_literals();
    if let Some(t) = e {
        lemma_escaped_safe(t);
        lemma_safe_concat("<p class=\"error\">Error: "@, html_escaped(t));
        lemma_safe_concat("<p class=\"error\">Error: "@ + html_escaped(t), "</p>"@);
    }
}

/// The section of a file opens once, and ends with `>`.
proof fn lemma_file_section_opens_once(f: FileReport)
    requires
        plain_codes(f),
    ensures
        openings(file_section(f)) == 1,
        file_section(f).len() > 0 && file_section(f).last() == '>',
{
    lemma_section_literals();
    lemma_mark_chars();
    reveal_strlit("<section class=\"file\"><h2>");
    reveal_strlit("<section class=\"file\">");
    reveal_strlit("<h2>");
    let first = "<section class=\"file\"><h2>"@;
    assert(first =~= section_mark() + "<h2>"@);
    assert(opens_no_section("<h2>"@));
    lemma_escaped_safe(f.path@);
    let p1 = "<h2>"@ + html_escaped(f.path@);
    lemma_safe_concat("<h2>"@, html_escaped(f.path@));
    lemma_safe_concat(p1, "</h2><p>Status: "@);
    let p2 = p1 + "</h2><p>Status: "@;
    lemma_safe_concat(p2, status_name(f.status));
    let p3 = p2 + status_name(f.status);
    lemma_safe_concat(p3, " | Review: "@);
    let p4 = p3 + " | Review: "@;
    lemma_safe_concat(p4, review_name(f.review_state));
    let p5 = p4 + review_name(f.review_state);
    lemma_safe_concat(p5, "</p>"@);
    let p6 = p5 + "</p>"@;
    lemma_error_part_safe(error_view(f.error));
    lemma_safe_concat(p6, error_part(error_view(f.error)));
    let p7 = p6 + error_part(error_view(f.error));
    lemma_lists_safe(f);
    lemma_safe_concat(p7, section_lists(f));
    let rest = p7 + section_lists(f);
    assert(file_section(f) =~= section_mark() + rest);
    lemma_one_opening(rest);
    reveal_strlit("</ul></section>");
    let sl = section_lists(f);
    assert(sl.last() == "</ul></section>"@.last());
    assert(file_section(f).last() == sl.last());
}

/// The file sections open once per file.
proof fn lemma_file_sections_open(files: Seq<FileReport>)
    requires
        forall|k: int| 0 <= k < files.len() ==> plain_codes(#[trigger] files[k]),
    ensures
        openings(file_sections(files)) == files.len(),
        file_sections(files).len() == 0 || file_sections(files).last() == '>',
    decreases files.len(),
{
    if files.len() > 0 {
        let t = files.drop_last();
        assert forall|k: int| 0 <= k < t.len() implies plain_codes(#[trigger] t[k]) by {
            assert(t[k] == files[k]);
        }
        lemma_file_sections_open(t);
        assert(plain_codes(files[files.len() - 1]));
        lemma_file_section_opens_once(files.last());
        lemma_openings_concat(file_sections(t), file_section(files.last()));
        let s = file_sections(t) + file_section(files.last());
        assert(s.last() == file_section(files.last()).last());
    }
}

proof fn lemma_page_head_safe(r: BatchReport)
    ensures
        opens_no_section(page_head(r)),
{
    lemma_head_literals();
    lemma_section_literals();
    let pr = html_escaped(r.profile@);
    lemma_escaped_safe(r.profile@);
    lemma_dec_safe(r.summary.total as nat);
    lemma_dec_safe(r.summary.passed as nat);
    lemma_dec_safe(r.summary.warned as nat);
    lemma_dec_safe(r.summary.failed as nat);
    lemma_dec_safe(r.summary.errors as nat);
    let a0 = "<!DOCTYPE html>\n<html lang=\"en\">\n<head>\n  <meta charset=\"utf-8\">\n  <title>Media QA Report - "@;
    lemma_safe_concat(a0, pr);
    let a1 = a0 + pr;
    lemma_safe_concat(a1, "</title>\n  <style>\n    body { font-family: sans-serif; margin: 2rem; }\n    .summary, .file { border: 1px solid #ddd; padding: 1rem; margin-bottom: 1rem; }\n    .fail { color: #b00020; }\n    .warn { color: #9a6700; }\n    .error { color: #b00020; }\n  </style>\n</head>\n<body>\n  <h1>Media QA Report</h1>\n  <section class=\"summary\">\n    <p><strong>Profile:</strong> "@);
    let a2 = a1 + "</title>\n  <style>\n    body { font-family: sans-serif; margin: 2rem; }\n    .summary, .file { border: 1px solid #ddd; padding: 1rem; margin-bottom: 1rem; }\n    .fail { color: #b00020; }\n    .warn { color: #9a6700; }\n    .error { color: #b00020; }\n  </style>\n</head>\n<body>\n  <h1>Media QA Report</h1>\n  <section class=\"summary\">\n    <p><strong>Profile:</strong> "@;
    lemma_safe_concat(a2, pr);
    let a3 = a2 + pr;
    lemma_safe_concat(a3, "</p>\n    <p><strong>Total:</strong> "@);
    let a4 = a3 + "</p>\n    <p><strong>Total:</strong> "@;
    lemma_safe_concat(a4, dec(r.summary.total as nat));
    let a5 = a4 + dec(r.summary.total as nat);
    lemma_safe_concat(a5, " |\n       <strong>Passed:</strong> "@);
    let a6 = a5 + " |\n       <strong>Passed:</strong> "@;
    lemma_safe_concat(a6, dec(r.summary.passed as nat));
    let a7 = a6 + dec(r.summary.passed as nat);
    lemma_safe_concat(a7, " |\n       <strong>Warned:</strong> "@);
    let a8 = a7 + " |\n       <strong>Warned:</strong> "@;
    lemma_safe_concat(a8, dec(r.summary.warned as nat));
    let a9 = a8 + dec(r.summary.warned as nat);
    lemma_safe_concat(a9, " |\n       <strong>Failed:</strong> "@);
    let a10 = a9 + " |\n       <strong>Failed:</strong> "@;
    lemma_safe_concat(a10, dec(r.summary.failed as nat));
    let a11 = a10 + dec(r.summary.failed as nat);
    lemma_safe_concat(a11, " |\n       <strong>Errors:</strong> "@);
    let a12 = a11 + " |\n       <strong>Errors:</strong> "@;
    lemma_safe_concat(a12, dec(r.summary.errors as nat));
    let a13 = a12 + dec(r.summary.errors as nat);
    lemma_safe_concat(a13, "</p>\n    <p><strong>Overall:</strong> "@);
    let a14 = a13 + "</p>\n    <p><strong>Overall:</strong> "@;
    lemma_safe_concat(a14, status_name(batch_status(r)));
    let a15 = a14 + status_name(batch_status(r));
    lemma_safe_concat(a15, "</p>\n  </section>\n  "@);
    let a16 = a15 + "</p>\n  </section>\n  "@;
    assert(page_head(r) =~= a16);
}

/// The page opens one file section per file of the report: the section
/// opening occurs in it exactly as many times as there are files, when no
/// finding or suggestion code holds a `<` (codes are written as they are;
/// all other report text is escaped).
pub proof fn law_page_opens_one_section_per_file(r: BatchReport)
    requires
        forall|k: int| 0 <= k < r.files@.len() ==> plain_codes(#[trigger] r.files@[k]),
    ensures
        openings(html_page(r)) == r.files@.len(),
{
    lemma_page_head_safe(r);
    lemma_file_sections_open(r.files@);
    reveal_strlit("\n</body>\n</html>");
    let head = page_head(r);
    let secs = file_sections(r.files@);
    let tail = "\n</body>\n</html>"@;
    assert(openings(tail) == 0);
    lemma_openings_concat(secs, tail);
    lemma_openings_after_safe(head, secs + tail);
    assert(html_page(r) =~= head + (secs + tail));
}

} // verus!
