use air_quality_store::text::{chars_of, contains, join2, join3, render_decimal};

#[test]
fn contains_agrees_with_the_standard_search() {
    let hays = ["", "a", "air", "Fairbanks", "aaab", "abcabd", "\u{e9}t\u{e9}", "na\u{ef}ve air"];
    let needles = ["", "a", "air", "ab", "aab", "abd", "b", "\u{e9}", "t\u{e9}", "\u{ef}ve", "x"];
    for hay in hays {
        for needle in needles {
            assert_eq!(contains(hay, needle), hay.contains(needle), "{:?} in {:?}", needle, hay);
        }
    }
}

#[test]
fn contains_finds_a_match_at_either_end() {
    assert!(contains("airport", "air"));
    assert!(contains("repair", "air"));
    assert!(contains("air", "air"));
    assert!(!contains("ai", "air"));
    assert!(!contains("Air", "air"));
}

#[test]
fn empty_text_is_contained_in_every_text() {
    assert!(contains("", ""));
    assert!(contains("abc", ""));
    assert!(!contains("", "a"));
}

#[test]
fn chars_of_lists_the_characters() {
    assert_eq!(chars_of("a\u{e9}\u{1f637}"), vec!['a', '\u{e9}', '\u{1f637}']);
    assert_eq!(chars_of(""), Vec::<char>::new());
}

#[test]
fn render_decimal_writes_numerals() {
    assert_eq!(render_decimal(0), "0");
    assert_eq!(render_decimal(7), "7");
    assert_eq!(render_decimal(10), "10");
    assert_eq!(render_decimal(1234567890), "1234567890");
    assert_eq!(render_decimal(u64::MAX), "18446744073709551615");
    for n in [9u64, 99, 100, 101, 999_999, 1 << 32, (1 << 63) + 5] {
        assert_eq!(render_decimal(n), n.to_string());
    }
}

#[test]
fn joins_put_the_pieces_in_order() {
    assert_eq!(join2("ab", "cd"), "abcd");
    assert_eq!(join3("ab", "", "cd"), "abcd");
    assert_eq!(join3("a", "b", "c"), "abc");
}
