//! Characters, words, lines and numbers.

use breadcrumbs::text::{
    after_prefix, comes_before, contains, is_space, join, parse_i32, parse_u32, parse_unsigned,
    push_bytes, quote_list, quote_option, split_lines, split_words, starts_with, to_decimal,
    to_padded, trim, trim_end_char,
};

fn list(parts: &[&str]) -> Vec<String> {
    parts.iter().map(|s| s.to_string()).collect()
}

#[test]
fn spaces_are_those_of_unicode() {
    for n in 0u32..=0x10ffff {
        if let Some(c) = char::from_u32(n) {
            assert_eq!(is_space(c), c.is_whitespace(), "character {n:#x}");
        }
    }
}

#[test]
fn trimming_takes_spaces_at_both_ends() {
    for s in ["", " ", "a", " a b ", "\u{3000}x\u{85}", "\t\n", "x\u{200b}"] {
        assert_eq!(trim(s), s.trim());
    }
    assert_eq!(trim_end_char("pw\n\n", '\n'), "pw");
    assert_eq!(trim_end_char("\npw", '\n'), "\npw");
}

#[test]
fn words_and_lines() {
    for s in ["", "  ", "one", " a  b\tc\n", "\u{2003}x\u{2003}y"] {
        let words: Vec<&str> = s.split_whitespace().collect();
        assert_eq!(split_words(s), words);
    }
    for s in ["", "\n", "a", "a\n", "a\nb", "a\r\nb\r\n", "\n\na", "a\r", "\r\n"] {
        let lines: Vec<&str> = s.lines().collect();
        assert_eq!(split_lines(s), lines, "lines of {s:?}");
    }
}

#[test]
fn prefixes_and_parts() {
    assert_eq!(after_prefix("bread.command.crumbs.pin", "bread.command.crumbs."), Some("pin".into()));
    assert_eq!(after_prefix("bread", "bread.x"), None);
    assert_eq!(after_prefix("abc", ""), Some("abc".into()));
    assert!(starts_with("https://x", "https://"));
    assert!(!starts_with("http", "https://"));
    for (s, t) in [("abcabd", "abd"), ("aab", "ab"), ("", ""), ("", "x"), ("x", ""), ("日本語", "本")] {
        assert_eq!(contains(s, t), s.contains(t));
    }
}

#[test]
fn numbers_read_as_std_reads_them() {
    let cases = [
        "", "0", "7", "+7", "-7", "+", "-", "+-1", "007", " 7", "7 ", "4294967295", "4294967296",
        "2147483647", "2147483648", "-2147483648", "-2147483649", "99999999999999999999999", "1_0",
        "٣", "0x1", "-0",
    ];
    for s in cases {
        assert_eq!(parse_u32(s), s.parse::<u32>().ok(), "u32 of {s:?}");
        assert_eq!(parse_i32(s), s.parse::<i32>().ok(), "i32 of {s:?}");
    }
    assert_eq!(parse_unsigned("100", 99), None);
    assert_eq!(parse_unsigned("99", 99), Some(99));
}

#[test]
fn decimals_are_written_and_read_back() {
    for n in [0u64, 1, 9, 10, 99, 100, 12345, u64::from(u32::MAX), u64::MAX] {
        assert_eq!(to_decimal(n), n.to_string());
    }
    assert_eq!(parse_unsigned(&to_decimal(86_400), 100_000), Some(86_400));
    for (n, w) in [(5i64, 2usize), (0, 4), (2024, 4), (-1, 4), (-12345, 4), (123, 2), (7, 0)] {
        assert_eq!(to_padded(n, w), format!("{n:0w$}"));
    }
}

#[test]
fn joining_puts_the_separator_between() {
    for parts in [vec![], vec!["a"], vec!["a", "b", ""]] {
        assert_eq!(join(&list(&parts), ", "), parts.join(", "));
    }
    let mut bytes = b"pre:".to_vec();
    push_bytes(&mut bytes, "héllo");
    assert_eq!(bytes, "pre:héllo".as_bytes().to_vec());
}

#[test]
fn names_are_ordered_as_std_orders_them() {
    let names = ["", "A", "a", "aa", "ab", "b", "é", "日本", "🔒"];
    for a in names {
        for b in names {
            assert_eq!(comes_before(a, b), a < b, "{a:?} before {b:?}");
        }
    }
}

#[test]
fn quoting_escapes_what_needs_it() {
    let parts = list(&["plain", "tab\there", "say \"hi\"", "日本"]);
    assert_eq!(quote_list(&parts), format!("{parts:?}"));
    assert_eq!(quote_list(&Vec::new()), "[]");
    assert_eq!(quote_option(&None), "None");
    assert_eq!(quote_option(&Some("a\"b".to_string())), format!("{:?}", Some("a\"b")));
}
