use license_notice::detect::{change_report, detect_change, diff_lines, split_lines};
use license_notice::text::{contains_str, remove_all, strip_cr};

#[test]
fn detection_is_reflexive() {
    let doc = String::from("THIRD-PARTY\n\nbody line\n");
    assert!(!detect_change(Some(&doc), &doc));
}

#[test]
fn first_run_reports_no_change() {
    let doc = String::from("anything at all\n");
    assert!(!detect_change(None, &doc));
    let (changed, diff) = change_report(None, &doc);
    assert!(!changed);
    assert!(diff.is_empty());
}

#[test]
fn carriage_returns_are_ignored() {
    let old = String::from("line one\r\nline two\r\n");
    let new = String::from("line one\nline two\n");
    assert!(!detect_change(Some(&old), &new));
    assert!(!detect_change(Some(&new), &old));
}

#[test]
fn a_real_difference_is_reported() {
    let old = String::from("a\nb\nc\n");
    let new = String::from("a\nx\nc\n");
    assert!(detect_change(Some(&old), &new));
    let (changed, diff) = change_report(Some(&old), &new);
    assert!(changed);
    assert_eq!(
        diff,
        vec![
            String::from(" a"),
            String::from("-b"),
            String::from("+x"),
            String::from(" c")
        ]
    );
}

#[test]
fn unchanged_text_yields_empty_diff() {
    let old = String::from("same\ntext\n");
    let new = String::from("same\r\ntext\r\n");
    let (changed, diff) = change_report(Some(&old), &new);
    assert!(!changed);
    assert!(diff.is_empty());
}

#[test]
fn diff_reports_context_additions_and_removals() {
    let diff = diff_lines("keep\ngone\nkeep2", "keep\nnew1\nnew2\nkeep2");
    assert_eq!(
        diff,
        vec![
            String::from(" keep"),
            String::from("-gone"),
            String::from("+new1"),
            String::from("+new2"),
            String::from(" keep2")
        ]
    );
}

#[test]
fn split_lines_handles_trailing_newline() {
    let lines = split_lines("a\nb\n");
    assert_eq!(lines, vec![String::from("a"), String::from("b")]);
    let lines2 = split_lines("a\nb");
    assert_eq!(lines2, vec![String::from("a"), String::from("b")]);
    let lines3 = split_lines("");
    assert!(lines3.is_empty());
    let lines4 = split_lines("\n");
    assert_eq!(lines4, vec![String::from("")]);
}

#[test]
fn strip_cr_removes_every_carriage_return() {
    assert_eq!(strip_cr("a\r\nb\rc"), "a\nbc");
    assert_eq!(strip_cr("plain"), "plain");
    assert_eq!(strip_cr(""), "");
}

#[test]
fn substring_search() {
    assert!(contains_str("MIT OR Apache-2.0", "MIT"));
    assert!(contains_str("MIT OR Apache-2.0", "Apache-2.0"));
    assert!(!contains_str("MIT", "Apache-2.0"));
    assert!(contains_str("anything", ""));
}

#[test]
fn remove_all_occurrences() {
    assert_eq!(remove_all("node_modules/a/node_modules/b", "node_modules/"), "a/b");
    assert_eq!(remove_all("plain", "node_modules/"), "plain");
    assert_eq!(remove_all("aaa", "aa"), "a");
}
