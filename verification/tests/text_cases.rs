use jjit::strmap::StrMap;
use jjit::text::{
    contains, decimal, is_blank, is_whitespace, join, lines, split_on, starts_with,
    str_eq, suffix_from, trim,
};

#[test]
fn trimming_matches_str_trim() {
    for s in ["", "  a b  ", "\u{a0}x\u{3000}", "\t\n", "abc"] {
        assert_eq!(trim(s), s.trim());
        assert_eq!(is_blank(s), s.trim().is_empty());
    }
    for c in [' ', '\t', '\u{85}', '\u{2028}', 'a', '_', '\u{200b}'] {
        assert_eq!(is_whitespace(c), c.is_whitespace());
    }
}

#[test]
fn lines_and_split_match_std() {
    for s in ["", "a", "a\n", "a\r\nb", "\n\nx", "a\rb\n"] {
        let expected: Vec<String> = s.lines().map(|l| l.to_string()).collect();
        assert_eq!(lines(s), expected);
    }
    for s in ["", "a,b", ",", "a,,b,"] {
        let expected: Vec<String> = s.split(',').map(|l| l.to_string()).collect();
        assert_eq!(split_on(s, ','), expected);
    }
}

#[test]
fn searching_and_slicing() {
    assert!(contains("hello world", "o w"));
    assert!(contains("abc", ""));
    assert!(!contains("abc", "abcd"));
    assert!(starts_with("data: x", "data: "));
    assert!(!starts_with("dat", "data"));
    assert_eq!(suffix_from("héllo", 2), "llo");
    assert!(str_eq("a", "a"));
    assert!(!str_eq("a", "b"));
}

#[test]
fn numbers_and_joining() {
    assert_eq!(decimal(0), "0");
    assert_eq!(decimal(7), "7");
    assert_eq!(decimal(1203), "1203");
    assert_eq!(jjit::text::concat("ab", "cd"), "abcd");
    assert_eq!(join(&vec!["a".to_string(), "b".to_string()], ", "), "a, b");
    assert_eq!(join(&vec![], ", "), "");
}

#[test]
fn string_map_keeps_one_entry_per_key() {
    let mut m = StrMap::new();
    assert!(m.is_empty());
    m.insert("a".to_string(), "1".to_string());
    m.insert("b".to_string(), "2".to_string());
    m.insert("a".to_string(), "3".to_string());
    assert_eq!(m.get("a"), Some("3".to_string()));
    assert_eq!(m.get("b"), Some("2".to_string()));
    assert_eq!(m.get("c"), None);
    assert_eq!(m.entries().len(), 2);
    assert_eq!(m.entries()[0], ("a".to_string(), "3".to_string()));
    let p = StrMap::from_pairs(&vec![
        ("x".to_string(), "1".to_string()),
        ("x".to_string(), "2".to_string()),
    ]);
    assert_eq!(p.get("x"), Some("2".to_string()));
    assert_eq!(p.entries().len(), 1);
}
