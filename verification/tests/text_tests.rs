use egg::text::{
    chars_of, concat_str, contains, decimal_chars, eq_ignore_ascii_case, index_of, is_blank,
    is_whitespace_char, join_strings, lex_less, lower_str, parse_u32, retain_non_blank, slice_of,
    sorted_strings, spells, split_chars, starts_with, str_contains, str_eq, str_starts_with,
    string_of, strip_quotes, to_ascii_lower, to_lower_char, trim_str, trimmed, words_of,
};

fn chars(s: &str) -> Vec<char> {
    s.chars().collect()
}

#[test]
fn whitespace_test_agrees_with_std_on_every_char() {
    for code in 0u32..=0x10FFFF {
        if let Some(c) = char::from_u32(code) {
            assert_eq!(is_whitespace_char(c), c.is_whitespace(), "U+{:04X}", code);
        }
    }
}

#[test]
fn lower_char_agrees_with_std_on_every_char() {
    for code in 0u32..=0x10FFFF {
        if let Some(c) = char::from_u32(code) {
            assert_eq!(to_lower_char(c), c.to_ascii_lowercase(), "U+{:04X}", code);
        }
    }
}

#[test]
fn chars_and_strings_round_trip() {
    let text = "Héllo, 世界!";
    assert_eq!(chars_of(text), chars(text));
    assert_eq!(string_of(&chars(text)), text);
    assert_eq!(chars_of(""), Vec::<char>::new());
}

#[test]
fn ascii_lower_leaves_other_letters_alone() {
    assert_eq!(to_ascii_lower(&chars("FireFOX É")), chars("firefox É"));
}

#[test]
fn trimmed_agrees_with_std_trim() {
    for text in [
        "",
        "   ",
        "a",
        "  a b  ",
        "\t\n x \u{3000}",
        "\u{a0}mid dle\u{2003}",
        "no-space",
    ] {
        assert_eq!(string_of(&trimmed(&chars(text))), text.trim(), "{:?}", text);
    }
}

#[test]
fn words_agree_with_std_split_whitespace() {
    for text in [
        "",
        "   ",
        "one",
        " one  two\tthree ",
        "a\u{3000}b",
        "trailing ",
        " leading",
    ] {
        let expected: Vec<String> = text.split_whitespace().map(|w| w.to_string()).collect();
        assert_eq!(words_of(&chars(text)), expected, "{:?}", text);
    }
}

#[test]
fn prefix_and_substring_tests() {
    assert!(starts_with(&chars("firefox"), &chars("fire")));
    assert!(starts_with(&chars("firefox"), &chars("")));
    assert!(!starts_with(&chars("fire"), &chars("firefox")));
    assert!(!starts_with(&chars("firefox"), &chars("fox")));
    assert!(contains(&chars("firefox"), &chars("fox")));
    assert!(contains(&chars("firefox"), &chars("ref")));
    assert!(contains(&chars("firefox"), &chars("")));
    assert!(contains(&chars(""), &chars("")));
    assert!(!contains(&chars("firefox"), &chars("foxy")));
    assert!(!contains(&chars(""), &chars("a")));
}

#[test]
fn index_of_finds_the_first_occurrence() {
    assert_eq!(index_of(&chars("a|b|c"), '|'), 1);
    assert_eq!(index_of(&chars("abc"), '|'), 3);
    assert_eq!(index_of(&chars(""), '|'), 0);
    assert_eq!(slice_of(&chars("a|b|c"), 2, 5), chars("b|c"));
}

#[test]
fn decimal_numerals() {
    assert_eq!(string_of(&decimal_chars(0)), "0");
    assert_eq!(string_of(&decimal_chars(7)), "7");
    assert_eq!(string_of(&decimal_chars(10)), "10");
    assert_eq!(string_of(&decimal_chars(1234567890)), "1234567890");
    assert_eq!(string_of(&decimal_chars(usize::MAX)), usize::MAX.to_string());
}

#[test]
fn lex_less_agrees_with_string_order() {
    let samples = ["", "a", "A", "ab", "abc", "b", "é", "中", "zz", "a b"];
    for a in samples {
        for b in samples {
            assert_eq!(lex_less(&chars(a), &chars(b)), a < b, "{:?} < {:?}", a, b);
        }
    }
}

#[test]
fn pieces_and_joins() {
    for text in ["", "a", "a/b", "/a//b/", "no slash", "//"] {
        let expected: Vec<String> = text.split('/').map(|p| p.to_string()).collect();
        assert_eq!(split_chars(&chars(text), '/'), expected, "{:?}", text);
        assert_eq!(join_strings(&expected, "/"), text);
    }
    let parts = vec!["a".to_string(), "".to_string(), "c".to_string()];
    assert_eq!(join_strings(&parts, " / "), "a /  / c");
    assert_eq!(join_strings(&Vec::new(), " / "), "");
    assert_eq!(join_strings(&vec!["only".to_string()], " / "), "only");
}

#[test]
fn sorted_strings_agree_with_sort_and_dedup() {
    let samples: Vec<Vec<&str>> = vec![
        vec![],
        vec!["b", "a", "b", "c", "a"],
        vec!["Zed", "alpha", "Alpha", "", " ", "中", "alpha"],
        vec!["x"],
        vec!["ab", "a", "abc", "", "a"],
    ];
    for sample in samples {
        let texts: Vec<String> = sample.iter().map(|s| s.to_string()).collect();
        let mut expected = texts.clone();
        expected.sort();
        expected.dedup();
        assert_eq!(sorted_strings(texts.clone()), expected);
        let mut kept = texts.clone();
        kept.retain(|t| !t.trim().is_empty());
        assert_eq!(retain_non_blank(texts), kept);
    }
}

#[test]
fn quotes_are_stripped_from_both_ends() {
    for text in ["", "\"\"", "'a'", "\"'a b'\"", "a\"b", "\"a", "a'", "'\"'"] {
        let expected = text.trim_matches(|c| c == '\'' || c == '"');
        assert_eq!(string_of(&strip_quotes(&chars(text))), expected, "{:?}", text);
    }
}

#[test]
fn numbers_are_parsed_as_std_does() {
    for text in [
        "", "0", "7", "+7", "-7", "+", "-", "007", "4294967295", "4294967296",
        "99999999999999999999999", "00000000000000000000000000005", "12a", "a12", " 12", "12 ",
        "1_000", "+-1", "++1", "٣",
    ] {
        assert_eq!(parse_u32(text), text.parse::<u32>().ok(), "{:?}", text);
    }
}

#[test]
fn helpers_on_string_slices() {
    assert!(is_blank(""));
    assert!(is_blank(" \t\u{3000}"));
    assert!(!is_blank(" a "));
    assert_eq!(trim_str("  a b \n"), "a b");
    assert_eq!(lower_str("AbC É"), "abc É");
    assert!(str_eq("abc", "abc"));
    assert!(!str_eq("abc", "abd"));
    assert!(!str_eq("abc", "ab"));
    assert!(str_starts_with("https://x", "https://"));
    assert!(!str_starts_with("http", "https://"));
    assert!(str_contains("a://b", "://"));
    assert!(!str_contains("a:/b", "://"));
    assert_eq!(concat_str("ab", "cd"), "abcd");
    assert_eq!(concat_str("", ""), "");
    assert!(spells(&chars("url"), "url"));
    assert!(!spells(&chars("urls"), "url"));
    assert!(eq_ignore_ascii_case("[InternetShortcut]", "[internetshortcut]"));
    assert!(!eq_ignore_ascii_case("[InternetShortcut]", "[internetshortcuts]"));
    assert!(!eq_ignore_ascii_case("É", "é"));
}
