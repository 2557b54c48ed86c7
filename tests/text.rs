use klippy::text::{blank, chars_of, contains_text, matches_query, white_space};

#[test]
fn blank_detects_white_space_only() {
    assert!(blank(""));
    assert!(blank(" \t\r\n"));
    assert!(blank("\u{a0}\u{3000}"));
    assert!(!blank(" a "));
}

#[test]
fn contains_text_finds_runs() {
    assert!(contains_text("hello world", "lo w"));
    assert!(contains_text("abc", ""));
    assert!(!contains_text("abc", "abcd"));
    assert!(!contains_text("Hello", "hello"));
}

#[test]
fn query_ignores_case() {
    assert!(matches_query("Hello World", "hello"));
    assert!(matches_query("HELLO", "hElLo"));
    assert!(!matches_query("foo", "hello"));
    assert!(matches_query("foo", ""));
}

#[test]
fn chars_are_split_one_by_one() {
    assert_eq!(chars_of("a\u{e9}b"), vec!['a', '\u{e9}', 'b']);
}

#[test]
fn white_space_matches_std() {
    for c in ['\t', '\n', '\r', ' ', '\u{85}', '\u{a0}', '\u{2003}', '\u{3000}', 'a', '0', '\u{200b}', '\u{e9}'] {
        assert_eq!(white_space(c), c.is_whitespace());
    }
}
