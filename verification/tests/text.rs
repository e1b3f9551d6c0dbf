use tts_pipeline::text::{
    ascii_lower, chars_of, is_ascii_alphanumeric, is_whitespace, occurs_at, replace, str_eq,
    string_of, trim,
};

fn chars(s: &str) -> Vec<char> {
    s.chars().collect()
}

#[test]
fn whitespace_is_the_unicode_property() {
    for code in 0..=0x10ffffu32 {
        if let Some(c) = char::from_u32(code) {
            assert_eq!(is_whitespace(c), c.is_whitespace(), "U+{:04X}", code);
        }
    }
}

#[test]
fn ascii_classes_agree_with_std() {
    for code in 0..=0x10ffffu32 {
        if let Some(c) = char::from_u32(code) {
            assert_eq!(is_ascii_alphanumeric(c), c.is_ascii_alphanumeric(), "U+{:04X}", code);
            assert_eq!(ascii_lower(c), c.to_ascii_lowercase(), "U+{:04X}", code);
        }
    }
}

#[test]
fn chars_and_strings_convert_both_ways() {
    for s in ["", "abc", "həlˈoʊ", "a\u{0329}b", "日本語。"] {
        assert_eq!(chars_of(s), chars(s));
        assert_eq!(string_of(&chars(s)), s);
    }
}

#[test]
fn str_eq_compares_characters() {
    assert!(str_eq("", ""));
    assert!(str_eq("af_alloy", "af_alloy"));
    assert!(!str_eq("af_alloy", "af_allo"));
    assert!(!str_eq("af_alloy", "af_allox"));
    assert!(!str_eq("é", "e"));
    assert!(str_eq("həlˈoʊ", "həlˈoʊ"));
}

#[test]
fn trim_agrees_with_std() {
    for s in [
        "",
        " ",
        "  abc  ",
        "abc",
        "\t\n a b \r\n",
        "\u{3000}x\u{a0}",
        "\u{2003}\u{2003}",
        " a",
        "a ",
        "\u{85}b c\u{1680}",
    ] {
        assert_eq!(string_of(&trim(&chars(s))), s.trim(), "{:?}", s);
    }
}

#[test]
fn replace_agrees_with_std() {
    let cases = [
        ("", "a", "b"),
        ("aaa", "aa", "b"),
        ("aaaa", "aa", "b"),
        ("abcabc", "bc", ""),
        ("abcabc", "abc", "abcabc"),
        ("r", "r", "ɹ"),
        ("error", "r", "ɹ"),
        ("kəkˈoːɹoʊ kəkˈoːɹoʊ", "kəkˈoːɹoʊ", "kˈoʊkəɹoʊ"),
        ("xyz", "q", "k"),
        ("ab", "abc", "z"),
    ];
    for (s, from, to) in cases {
        assert_eq!(
            string_of(&replace(&chars(s), &chars(from), &chars(to))),
            s.replace(from, to),
            "{:?} {:?} {:?}",
            s,
            from,
            to
        );
    }
}

#[test]
fn replace_with_empty_pattern_changes_nothing() {
    assert_eq!(replace(&chars("abc"), &chars(""), &chars("x")), chars("abc"));
}

#[test]
fn occurs_at_finds_patterns() {
    let s = chars("hello");
    assert!(occurs_at(&s, 0, &chars("he")));
    assert!(occurs_at(&s, 3, &chars("lo")));
    assert!(!occurs_at(&s, 4, &chars("lo")));
    assert!(!occurs_at(&s, 1, &chars("he")));
    assert!(occurs_at(&s, 5, &chars("")));
}
