use unbrowser::text::{
    ascii_lower, blank, byte_prefix, chars_of, concat3, contains_str, find_line_end,
    has_prefix, has_suffix, is_not_after, is_space_char, lower_char, matches_at, pad_left,
    pad_right, parse_u64, same, sorted_texts, strip_prefix, text_of, to_decimal, trim_dots,
};

#[test]
fn white_space_is_what_unicode_says() {
    for c in ['\0', '\t', '\n', '\u{b}', '\u{1c}', ' ', '\u{85}', '\u{a0}', '\u{200b}', '\u{2003}', 'x'] {
        assert_eq!(is_space_char(c), c.is_whitespace(), "{c:?}");
        assert_eq!(lower_char(c), c.to_ascii_lowercase());
    }
    let mut n: u32 = 0;
    while n < 0x3100 {
        if let Some(c) = char::from_u32(n) {
            assert_eq!(is_space_char(c), c.is_whitespace(), "{n:x}");
        }
        n += 1;
    }
    assert!(blank(" \t\u{3000}\n"));
    assert!(blank(""));
    assert!(!blank(" x "));
}

#[test]
fn texts_are_searched() {
    assert!(contains_str("abcabd", "abd"));
    assert!(contains_str("abc", ""));
    assert!(!contains_str("ab", "abc"));
    assert!(has_prefix("äbc", "äb"));
    assert!(!has_prefix("a", "ab"));
    assert!(has_suffix("a.b.c", ".c"));
    assert!(!has_suffix("c", ".c"));
    assert_eq!(strip_prefix("--x=1", "--x="), Some("1".to_string()));
    assert_eq!(strip_prefix("--y=1", "--x="), None);
    assert!(same("ä", "ä"));
    assert!(!same("a", "ab"));
    let s = chars_of("hello");
    assert!(matches_at(&s, &chars_of("ll"), 2));
    assert!(!matches_at(&s, &chars_of("ll"), 4));
    assert_eq!(text_of(&s, 1, 3), "el");
}

#[test]
fn texts_are_put_together() {
    assert_eq!(concat3("a", "", "c"), "ac");
    assert_eq!(ascii_lower("ÄBc"), "Äbc");
    assert_eq!(trim_dots("..a.b."), "a.b.");
    assert_eq!(trim_dots("..."), "");
    assert_eq!(pad_right("ab", 4), "ab  ");
    assert_eq!(pad_left("ab", 4), "  ab");
    assert_eq!(pad_left("abcde", 4), "abcde");
}

#[test]
fn prefixes_are_counted_in_bytes() {
    assert_eq!(byte_prefix("äöü", 4), "äö");
    assert_eq!(byte_prefix("abc", 2), "ab");
    assert_eq!(byte_prefix("äöü", 5), "äö");
    assert_eq!(byte_prefix("äöü", 1), "");
    assert_eq!(byte_prefix("äöü", 9), "äöü");
}

#[test]
fn lines_end_at_line_feeds() {
    let s = chars_of("ab\r\ncd");
    assert_eq!(find_line_end(&s, 0), 3);
    assert_eq!(find_line_end(&s, 4), 6);
}

#[test]
fn numbers_are_written_and_read() {
    for n in [0u64, 7, 10, 1234567890, u64::MAX] {
        assert_eq!(to_decimal(n), n.to_string());
        assert_eq!(parse_u64(&n.to_string()), Some(n));
    }
    for s in ["", "+", "-1", " 1", "1 ", "0x1", "18446744073709551616", "+18446744073709551615", "007"] {
        assert_eq!(parse_u64(s), s.parse::<u64>().ok(), "{s:?}");
    }
}

#[test]
fn texts_are_sorted_by_their_bytes() {
    let words = ["b", "a", "ab", "", "ä", "z", "\u{ffff}", "\u{10000}"];
    let mut want: Vec<String> = words.iter().map(|w| w.to_string()).collect();
    let got = sorted_texts(&want);
    want.sort();
    assert_eq!(got, want);
    for a in words {
        for b in words {
            assert_eq!(is_not_after(a, b), a <= b);
        }
    }
}
