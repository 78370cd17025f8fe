use rstools::compare::compare;
use rstools::lines::ReadBuffer;
use rstools::render::render_report;

fn source(lines: &[&str]) -> ReadBuffer {
    ReadBuffer::new(lines.iter().map(|s| s.to_string()).collect())
}

#[test]
fn reports_first_difference_with_context() {
    let a = source(&["a", "b", "c"]);
    let b = source(&["a", "x", "c"]);
    let rep = compare(a, b, 5).expect("inputs differ");
    assert_eq!(rep.line_number, 2);
    assert_eq!(rep.context, vec!["a a".to_string()]);
    assert_eq!(rep.mismatch, "b x".to_string());
    let lines = render_report(&rep);
    assert_eq!(
        lines,
        vec![
            "difference found at line 2".to_string(),
            "a a".to_string(),
            "b x".to_string(),
        ]
    );
}

#[test]
fn identical_inputs_report_nothing() {
    for ctx in [0usize, 1, 5, 100] {
        let a = source(&["one", "two", "three"]);
        let b = source(&["one", "two", "three"]);
        assert!(compare(a, b, ctx).is_none());
    }
}

#[test]
fn strict_prefix_reports_nothing() {
    let a = source(&["a", "b"]);
    let b = source(&["a", "b", "c"]);
    assert!(compare(a, b, 5).is_none());
    let a = source(&["a", "b", "c"]);
    let b = source(&["a", "b"]);
    assert!(compare(a, b, 5).is_none());
}

#[test]
fn zero_context_shows_only_mismatch() {
    let a = source(&["a", "b", "c"]);
    let b = source(&["a", "b", "x"]);
    let rep = compare(a, b, 0).expect("inputs differ");
    assert_eq!(rep.line_number, 3);
    assert!(rep.context.is_empty());
    assert_eq!(rep.mismatch, "c x".to_string());
    let lines = render_report(&rep);
    assert_eq!(
        lines,
        vec!["difference found at line 3".to_string(), "c x".to_string()]
    );
}

#[test]
fn context_window_is_bounded() {
    let a = source(&["a", "b", "c", "d", "e"]);
    let b = source(&["a", "b", "c", "d", "x"]);
    let rep = compare(a, b, 2).expect("inputs differ");
    assert_eq!(rep.line_number, 5);
    assert_eq!(rep.context, vec!["c c".to_string(), "d d".to_string()]);
    assert_eq!(rep.mismatch, "e x".to_string());
}

#[test]
fn context_shorter_than_window() {
    let a = source(&["a", "b", "c"]);
    let b = source(&["a", "x", "c"]);
    let rep = compare(a, b, 100).expect("inputs differ");
    assert_eq!(rep.line_number, 2);
    assert_eq!(rep.context, vec!["a a".to_string()]);
}

#[test]
fn mismatch_on_first_line_has_no_context() {
    let a = source(&["left"]);
    let b = source(&["right"]);
    let rep = compare(a, b, 5).expect("inputs differ");
    assert_eq!(rep.line_number, 1);
    assert!(rep.context.is_empty());
    assert_eq!(rep.mismatch, "left right".to_string());
}

#[test]
fn empty_inputs_report_nothing() {
    let a = source(&[]);
    let b = source(&[]);
    assert!(compare(a, b, 5).is_none());
    let a = source(&[]);
    let b = source(&["anything"]);
    assert!(compare(a, b, 5).is_none());
}

#[test]
fn trailing_whitespace_is_ignored() {
    let a = source(&["a \t", "b\n"]);
    let b = source(&["a", "b"]);
    assert!(compare(a, b, 5).is_none());
}

#[test]
fn leading_whitespace_is_significant() {
    let a = source(&[" a"]);
    let b = source(&["a"]);
    let rep = compare(a, b, 5).expect("inputs differ");
    assert_eq!(rep.line_number, 1);
    assert_eq!(rep.mismatch, " a a".to_string());
}

#[test]
fn two_digit_line_number_is_rendered() {
    let mut left: Vec<&str> = Vec::new();
    let mut right: Vec<&str> = Vec::new();
    for _ in 0..12 {
        left.push("same");
        right.push("same");
    }
    left.push("one");
    right.push("other");
    let rep = compare(source(&left), source(&right), 1).expect("inputs differ");
    assert_eq!(rep.line_number, 13);
    let lines = render_report(&rep);
    assert_eq!(lines[0], "difference found at line 13".to_string());
    assert_eq!(lines[1], "same same".to_string());
    assert_eq!(lines[2], "one other".to_string());
}
