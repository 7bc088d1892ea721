use dbui_ui::text::{
    chars_of, clip, contains, contains_char, decimal_text, is_white_space, listed, parse_up_to,
    plural, same, slice, split_lines, squeeze, starts_with, string_of, to_ascii_lowercase, toggle,
    trim,
};

#[test]
fn trimming_and_squeezing_follow_unicode() {
    for text in ["", " a ", "\u{3000}a b\u{85}", "a\n\t b", "\u{200b}a", " \u{1680} "] {
        assert_eq!(trim(text), text.trim(), "{text:?}");
        let words: Vec<&str> = text.split_whitespace().collect();
        assert_eq!(squeeze(text), words.join(" "), "{text:?}");
    }
    for code in 0..0x1_1000u32 {
        if let Some(c) = char::from_u32(code) {
            assert_eq!(is_white_space(c), c.is_whitespace(), "{code:x}");
        }
    }
}

#[test]
fn searching_is_by_characters() {
    assert!(contains("naïve", "ïv"));
    assert!(!contains("naive", "ï"));
    assert!(contains("a", ""));
    assert!(contains_char("a\nb", '\n'));
    assert!(starts_with("Dumping to", "Dumping"));
    assert!(!starts_with("Dump", "Dumping"));
    assert!(same("é", "é"));
    assert!(!same("é", "e"));
    assert_eq!(slice("naïve", 2, 4), "ï");
    assert_eq!(to_ascii_lowercase("ÀBC"), "Àbc");
    assert_eq!(clip("naïve", 3), "naï");
    assert_eq!(clip("na", 3), "na");
    assert_eq!(string_of(&chars_of("naïve")), "naïve");
}

#[test]
fn numbers_read_back_as_they_are_written() {
    for n in [0u64, 9, 10, 65_535, 4_294_967_295, u64::MAX] {
        assert_eq!(decimal_text(n), n.to_string());
    }
    for text in ["0", "+5", "65535", "65536", "", "+", "-1", "1x", "007", "99999999999999999999"] {
        let expected = text.parse::<u16>().ok().map(u64::from);
        assert_eq!(parse_up_to(text, 65_535), expected, "{text}");
    }
    assert_eq!((plural(1), plural(0)), ("", "s"));
}

#[test]
fn a_list_toggles_one_text_at_a_time() {
    let mut list = vec!["a".to_string(), "b".to_string()];
    toggle(&mut list, "a");
    assert_eq!(list, vec!["b".to_string()]);
    toggle(&mut list, "a");
    assert!(listed(&list, "a") && listed(&list, "b") && !listed(&list, "c"));
}

#[test]
fn a_text_splits_into_its_lines() {
    for text in ["", "a", "a\nb", "\n", "a\r\n\nb\n"] {
        let lines: Vec<&str> = text.split('\n').collect();
        assert_eq!(split_lines(text), lines, "{text:?}");
        assert_eq!(split_lines(text).join("\n"), text);
    }
}
