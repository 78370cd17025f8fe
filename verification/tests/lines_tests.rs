use rstools::compare::join_lines;
use rstools::lines::ReadBuffer;
use rstools::lines::trim_line;

#[test]
fn get_line_strips_and_advances() {
    let mut rd = ReadBuffer::new(vec!["one \n".to_string(), "two".to_string()]);
    assert_eq!(rd.remaining(), 2);
    assert_eq!(rd.get_line(), Some("one".to_string()));
    assert_eq!(rd.get_line(), Some("two".to_string()));
    assert_eq!(rd.get_line(), None);
    assert_eq!(rd.get_line(), None);
    assert_eq!(rd.remaining(), 0);
}

#[test]
fn trim_line_strips_only_trailing_whitespace() {
    assert_eq!(trim_line("ab \t\r\n"), "ab".to_string());
    assert_eq!(trim_line(""), "".to_string());
    assert_eq!(trim_line("   "), "".to_string());
    assert_eq!(trim_line(" a"), " a".to_string());
    assert_eq!(trim_line("a b"), "a b".to_string());
}

#[test]
fn join_lines_uses_a_single_space() {
    assert_eq!(join_lines("a", "b"), "a b".to_string());
    assert_eq!(join_lines("", ""), " ".to_string());
}
