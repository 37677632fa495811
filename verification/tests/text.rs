use amppo::text::{char_is_whitespace, chars_of, decimal_string, is_listed, parse_or_zero};

fn chars(s: &str) -> Vec<char> {
    s.chars().collect()
}

#[test]
fn listed_word_among_several() {
    let content = b"default performance balance_performance balance_power power\n";
    assert!(is_listed(content, "power"));
    assert!(is_listed(content, "balance_performance"));
    assert!(is_listed(content, "default"));
}

#[test]
fn part_of_a_word_is_not_listed() {
    let content = b"default performance balance_performance power\n";
    assert!(!is_listed(content, "perf"));
    assert!(!is_listed(content, "balance"));
    assert!(!is_listed(content, "power\n"));
}

#[test]
fn empty_word_and_spaced_word_are_not_listed() {
    let content = b"low-power balanced performance\n";
    assert!(!is_listed(content, ""));
    assert!(!is_listed(content, "low-power balanced"));
}

#[test]
fn line_feeds_join_the_lines() {
    // Line feeds are taken out before the split, so "a\nb" reads as "ab".
    assert!(is_listed(b"low\npower", "lowpower"));
    assert!(!is_listed(b"low\npower", "low"));
    assert!(is_listed(b"low \npower", "low"));
}

#[test]
fn tabs_and_unicode_spaces_separate_words() {
    assert!(is_listed(b"quiet\tbalanced", "balanced"));
    assert!(is_listed("quiet\u{3000}cool".as_bytes(), "cool"));
    assert!(is_listed("quiet\u{a0}cool".as_bytes(), "quiet"));
}

#[test]
fn bytes_that_are_not_utf8_list_nothing() {
    assert!(!is_listed(&[0x70, 0x6f, 0xff, 0x20, 0x70], "p"));
    assert!(!is_listed(b"", "power"));
}

#[test]
fn decimal_forms() {
    assert_eq!(decimal_string(0), "0");
    assert_eq!(decimal_string(7), "7");
    assert_eq!(decimal_string(1234), "1234");
    assert_eq!(decimal_string(u64::MAX), u64::MAX.to_string());
}

#[test]
fn parse_plain_and_signed_numbers() {
    let t = chars("+42");
    assert_eq!(parse_or_zero(&t, 0, 3), 42);
    let t = chars("007");
    assert_eq!(parse_or_zero(&t, 0, 3), 7);
    let t = chars("-5");
    assert_eq!(parse_or_zero(&t, 0, 2), 0);
    let t = chars("+");
    assert_eq!(parse_or_zero(&t, 0, 1), 0);
    let t = chars("");
    assert_eq!(parse_or_zero(&t, 0, 0), 0);
    let t = chars("1 2");
    assert_eq!(parse_or_zero(&t, 0, 3), 0);
}

#[test]
fn parse_a_middle_part() {
    let t = chars("12-34");
    assert_eq!(parse_or_zero(&t, 0, 2), 12);
    assert_eq!(parse_or_zero(&t, 3, 5), 34);
}

#[test]
fn parse_overflow_gives_zero() {
    let big = format!("{}0", usize::MAX);
    let t = chars(&big);
    assert_eq!(parse_or_zero(&t, 0, t.len()), 0);
    let max = usize::MAX.to_string();
    let t = chars(&max);
    assert_eq!(parse_or_zero(&t, 0, t.len()), usize::MAX);
}

#[test]
fn chars_of_text() {
    assert_eq!(chars_of("añb"), vec!['a', 'ñ', 'b']);
}

#[test]
fn white_space_matches_std_for_every_char() {
    for u in 0u32..=0x10FFFF {
        if let Some(c) = char::from_u32(u) {
            assert_eq!(char_is_whitespace(c), c.is_whitespace(), "U+{:04X}", u);
        }
    }
}
