use batch_exif::text::{
    decimal_chars, equals_ignoring_ascii_case, find_from, first_two_words, lex_le_chars,
    parse_u32_chars, string_of, trim_bounds,
};

fn chars(s: &str) -> Vec<char> {
    s.chars().collect()
}

#[test]
fn decimal_writes_without_leading_zeros() {
    assert_eq!(string_of(&decimal_chars(0)), "0");
    assert_eq!(string_of(&decimal_chars(7)), "7");
    assert_eq!(string_of(&decimal_chars(1200)), "1200");
    assert_eq!(string_of(&decimal_chars(u64::MAX)), u64::MAX.to_string());
}

#[test]
fn parse_u32_follows_str_parse() {
    for s in ["0", "42", "+7", "007", "4294967295", "4294967296", "", "+", "-1", "1 2", "12a", "٣"] {
        let c = chars(s);
        assert_eq!(parse_u32_chars(&c, 0, c.len()), s.parse::<u32>().ok(), "input {s:?}");
    }
}

#[test]
fn trim_matches_str_trim() {
    for s in ["  a b  ", "\u{3000}x\u{a0}", "", "   ", "\tq\n", "\u{85}z\u{2029}"] {
        let c = chars(s);
        let (lo, hi) = trim_bounds(&c, 0, c.len());
        let got: String = c[lo..hi].iter().collect();
        assert_eq!(got, s.trim(), "input {s:?}");
    }
}

#[test]
fn find_gives_the_first_occurrence() {
    let h = chars("abcabc");
    assert_eq!(find_from(&h, 0, &chars("bc")), Some(1));
    assert_eq!(find_from(&h, 2, &chars("bc")), Some(4));
    assert_eq!(find_from(&h, 0, &chars("x")), None);
    assert_eq!(find_from(&h, 6, &chars("")), Some(6));
}

#[test]
fn first_two_words_follow_split_whitespace() {
    let c = chars("  2024:01:02   10:11:12 extra");
    let (a, b) = first_two_words(&c).unwrap();
    assert_eq!(string_of(&a), "2024:01:02");
    assert_eq!(string_of(&b), "10:11:12");
    assert!(first_two_words(&chars("single")).is_none());
}

#[test]
fn ascii_case_comparison() {
    assert!(equals_ignoring_ascii_case(&chars("JpEg"), &chars("jpeg")));
    assert!(!equals_ignoring_ascii_case(&chars("jpg"), &chars("jpeg")));
    assert!(!equals_ignoring_ascii_case(&chars("jpé"), &chars("jpe")));
}

#[test]
fn lexicographic_order_by_code_point() {
    assert!(lex_le_chars(&chars("a/b"), &chars("a/c")));
    assert!(lex_le_chars(&chars("a"), &chars("ab")));
    assert!(!lex_le_chars(&chars("b"), &chars("ab")));
    assert!(lex_le_chars(&chars("same"), &chars("same")));
}
