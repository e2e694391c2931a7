use sift::text::{collapse_white_space, decimal_string, split_lines};

#[test]
fn decimal_string_writes_digits() {
    assert_eq!(decimal_string(0), "0");
    assert_eq!(decimal_string(7), "7");
    assert_eq!(decimal_string(1024), "1024");
}

#[test]
fn split_lines_follows_str_lines() {
    let text = "one\ntwo\r\n\nthree";
    let expected: Vec<String> = text.lines().map(|l| l.to_string()).collect();
    assert_eq!(split_lines(text), expected);
    assert_eq!(split_lines("a\n"), vec!["a".to_string()]);
    assert!(split_lines("").is_empty());
}

#[test]
fn collapse_white_space_joins_words() {
    assert_eq!(collapse_white_space("  Two   words \n"), Some("Two words".to_string()));
    assert_eq!(collapse_white_space("single"), Some("single".to_string()));
    assert_eq!(collapse_white_space(" \t\n "), None);
    assert_eq!(collapse_white_space(""), None);
}
