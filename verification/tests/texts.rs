use meetly_core::text::{
    blank, chars_of, contains_text, decimal_of, find_last_chars, is_ascii_alphanumeric,
    is_whitespace, join_texts, lines_of, numeral_of, parse_signed, parse_unsigned,
    same_ignoring_ascii_case, strip_prefix_text, strip_suffix_text, to_ascii_lower, trim_text,
    words_of,
};

#[test]
fn characters_are_classed_as_the_language_classes_them() {
    for c in (0..=0x10ffffu32).filter_map(char::from_u32) {
        assert_eq!(is_whitespace(c), c.is_whitespace(), "{:?}", c);
        assert_eq!(is_ascii_alphanumeric(c), c.is_ascii_alphanumeric(), "{:?}", c);
        assert_eq!(to_ascii_lower(c), c.to_ascii_lowercase(), "{:?}", c);
    }
}

#[test]
fn texts_are_trimmed_and_split_as_usual() {
    for text in ["", "a", " a b\tc ", "\u{3000}x\u{2028}", "a\nb\r\nc\r", "\n\n", "x\n"] {
        assert_eq!(trim_text(text), text.trim());
        assert_eq!(blank(text), text.trim().is_empty());
        let lines: Vec<String> =
            lines_of(&chars_of(text)).iter().map(|line| line.iter().collect()).collect();
        assert_eq!(lines, text.lines().collect::<Vec<_>>());
        let words: Vec<String> =
            words_of(&chars_of(text)).iter().map(|word| word.iter().collect()).collect();
        assert_eq!(words, text.split_whitespace().collect::<Vec<_>>());
    }
}

#[test]
fn numbers_are_written_and_read_as_usual() {
    for n in [0u64, 9, 10, 255, 18446744073709551615] {
        assert_eq!(decimal_of(n), n.to_string());
        assert_eq!(numeral_of(n as u128, 16), format!("{:x}", n));
    }
    for text in ["", "0", "-0", "+7", "-7", "007", "1x", "-", "+", "9223372036854775808", "--1"] {
        assert_eq!(parse_signed(text), text.parse::<i64>().ok(), "{}", text);
        assert_eq!(parse_unsigned(text), text.parse::<u64>().ok(), "{}", text);
    }
}

#[test]
fn parts_are_found_as_usual() {
    let text = chars_of("one two one");
    assert!(contains_text(&text, "two"));
    assert!(!contains_text(&text, "three"));
    assert_eq!(find_last_chars(&text, &chars_of("one")), Some(8));
    assert_eq!(strip_prefix_text(&text, "one").unwrap().len(), 8);
    assert!(strip_prefix_text(&text, "two").is_none());
    assert_eq!(strip_suffix_text(&text, " one").unwrap().len(), 7);
    assert!(same_ignoring_ascii_case("MiMo", "mimo"));
    assert!(!same_ignoring_ascii_case("É", "é"));
    assert_eq!(join_texts(&vec!["a".to_string(), "b".to_string()], ", "), "a, b");
}
