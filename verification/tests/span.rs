use tanzim::span::{char_count, is_single_line, line_column, line_column_from_line};

#[test]
fn span_line_column_counts_utf8_chars() {
    let text = "α: 1\nb: 2";
    let (line, column) = line_column(text, 0);
    assert_eq!(line, 1);
    assert_eq!(column, 1);
    let (line, column) = line_column(text, text.find('\n').unwrap() + 1);
    assert_eq!(line, 2);
    assert_eq!(column, 1);
}

#[test]
fn is_single_line_detects_newlines() {
    assert!(is_single_line(b"hello"));
    assert!(!is_single_line(b"a\nb"));
}

#[test]
fn char_count_handles_ranges_and_empty_spans() {
    let text = "αβ";
    assert_eq!(char_count(text, 0, text.len()), 2);
    assert_eq!(char_count(text, 1, 1), 0);
}

#[test]
fn line_column_from_line_returns_column_on_target_line() {
    let text = "first\nsecond";
    let column = line_column_from_line(text, 2, text.find("second").unwrap());
    assert_eq!(column, 1);
}

#[test]
fn line_column_counts_characters_not_bytes() {
    let text = "αβ = 1\nx";
    // Byte 4 is where the space after the two two-byte letters starts.
    assert_eq!(line_column(text, 4), (1, 3));
    // An offset past the end stops at the end.
    assert_eq!(line_column(text, 1000), (2, 2));
}

#[test]
fn char_count_clamps_the_end_to_the_text() {
    assert_eq!(char_count("abc", 1, 99), 2);
    assert_eq!(char_count("abc", 3, 99), 0);
}

#[test]
fn line_column_from_line_falls_back_to_one_for_a_missing_line() {
    assert_eq!(line_column_from_line("a\nb", 5, 0), 1);
    assert_eq!(line_column_from_line("ab", 1, 1), 2);
    assert_eq!(line_column_from_line("ab", 1, 9), 3);
}
