use cliphistory::{contains_chars, is_blank_str, to_lower_chars};

#[test]
fn blank_test_accepts_empty_and_whitespace_only() {
    assert!(is_blank_str(""));
    assert!(is_blank_str("   "));
    assert!(is_blank_str(" \t\r\n \u{b}\u{c}"));
    assert!(!is_blank_str("a"));
    assert!(!is_blank_str("  a  "));
}

#[test]
fn folding_lowers_ascii_letters_only() {
    assert_eq!(to_lower_chars("AbC"), vec!['a', 'b', 'c']);
    assert_eq!(to_lower_chars("Hello, World! 42"), "hello, world! 42".chars().collect::<Vec<char>>());
    assert_eq!(to_lower_chars("déjà"), "déjà".chars().collect::<Vec<char>>());
}

#[test]
fn substring_search_finds_needles_anywhere() {
    let hay: Vec<char> = "hello world".chars().collect();
    let hit: Vec<char> = "lo wo".chars().collect();
    let start: Vec<char> = "hell".chars().collect();
    let end: Vec<char> = "orld".chars().collect();
    let miss: Vec<char> = "worlds".chars().collect();
    let empty: Vec<char> = Vec::new();
    assert!(contains_chars(&hay, &hit));
    assert!(contains_chars(&hay, &start));
    assert!(contains_chars(&hay, &end));
    assert!(contains_chars(&hay, &hay));
    assert!(contains_chars(&hay, &empty));
    assert!(!contains_chars(&hay, &miss));
    assert!(!contains_chars(&empty, &start));
}
