use rstools::lines::ReadBuffer;
use rstools::uniques::uniques;

fn source(lines: &[&str]) -> ReadBuffer {
    ReadBuffer::new(lines.iter().map(|s| s.to_string()).collect())
}

#[test]
fn keeps_first_occurrences_in_order() {
    let out = uniques(source(&["x", "y", "x", "z", "y"]));
    assert_eq!(
        out,
        vec!["x".to_string(), "y".to_string(), "z".to_string()]
    );
}

#[test]
fn idempotent_on_own_output() {
    let out = uniques(source(&["b", "a", "b", "c", "a", "c"]));
    let again = uniques(ReadBuffer::new(out.clone()));
    assert_eq!(again, out);
}

#[test]
fn empty_input_gives_empty_output() {
    let out = uniques(source(&[]));
    assert!(out.is_empty());
}

#[test]
fn collapses_all_duplicates() {
    let out = uniques(source(&["a", "a", "a"]));
    assert_eq!(out, vec!["a".to_string()]);
}

#[test]
fn trailing_whitespace_is_stripped_before_comparing() {
    let out = uniques(source(&["a \t", "a", "b\n", "b"]));
    assert_eq!(out, vec!["a".to_string(), "b".to_string()]);
}

#[test]
fn leading_whitespace_distinguishes_lines() {
    let out = uniques(source(&[" a", "a"]));
    assert_eq!(out, vec![" a".to_string(), "a".to_string()]);
}
