use numdiff::lines_equal;
use numdiff::oracle::{chars_of, is_all_digits, is_digit_char};

#[test]
fn digit_runs_are_tolerated() {
    assert!(lines_equal("bar2224", "bar234423"));
}

#[test]
fn non_digit_differences_distinguish() {
    assert!(!lines_equal("baz5", "qux3"));
}

#[test]
fn empty_lines_are_equal() {
    assert!(lines_equal("", ""));
}

#[test]
fn identical_lines_are_equal() {
    assert!(lines_equal("same line 42", "same line 42"));
}

#[test]
fn digit_against_letter_is_unequal() {
    assert!(!lines_equal("1", "x"));
}

#[test]
fn digits_inside_otherwise_equal_lines_fold() {
    assert!(lines_equal("a1", "a2"));
    assert!(lines_equal("v1.2.3", "v10.20.30"));
}

#[test]
fn empty_line_equals_all_digit_line() {
    // Every unmatched character is a digit, so no visible change survives.
    assert!(lines_equal("", "123"));
    assert!(!lines_equal("", "a"));
}

#[test]
fn digit_char_classification() {
    assert!(is_digit_char('0'));
    assert!(is_digit_char('9'));
    assert!(!is_digit_char('a'));
    assert!(!is_digit_char(' '));
}

#[test]
fn all_digit_detection() {
    assert!(is_all_digits("0123456789"));
    assert!(is_all_digits(""));
    assert!(!is_all_digits("12a34"));
}

#[test]
fn chars_of_lists_characters_in_order() {
    assert_eq!(chars_of("ab1"), vec!['a', 'b', '1']);
    assert!(chars_of("").is_empty());
}
