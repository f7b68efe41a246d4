use epo_processor::text::{
    char_is_whitespace, chars_of, concatenated, eq_ignore_ascii_case, join, str_less,
    string_of_range, trim,
};

#[test]
fn chars_and_strings_convert_both_ways() {
    let chars = chars_of("héllo");
    assert_eq!(chars, vec!['h', 'é', 'l', 'l', 'o']);
    assert_eq!(string_of_range(&chars, 0, 5), "héllo");
    assert_eq!(string_of_range(&chars, 1, 3), "él");
    assert_eq!(string_of_range(&chars, 2, 2), "");
}

#[test]
fn concat_puts_the_second_after_the_first() {
    assert_eq!(concatenated("ab", "cd"), "abcd");
    assert_eq!(concatenated("", "x"), "x");
    assert_eq!(concatenated("x", ""), "x");
}

#[test]
fn join_puts_the_separator_between_neighbours() {
    assert_eq!(join(&Vec::new(), ";"), "");
    assert_eq!(join(&vec!["a".to_string()], ";"), "a");
    assert_eq!(join(&vec!["a".to_string(), "b".to_string(), "c".to_string()], ";"), "a;b;c");
    assert_eq!(join(&vec!["".to_string(), "".to_string()], ","), ",");
    assert_eq!(join(&vec!["x".to_string(), "y".to_string()], ", "), "x, y");
}

#[test]
fn trim_removes_white_space_at_both_ends_only() {
    assert_eq!(trim("  a b \t"), "a b");
    assert_eq!(trim(""), "");
    assert_eq!(trim("   "), "");
    assert_eq!(trim("x"), "x");
    assert_eq!(trim("\n\r x"), "x");
    assert_eq!(trim("\u{2003}x y\u{3000}"), "x y");
}

#[test]
fn trim_agrees_with_the_standard_library() {
    for text in ["  a ", "\u{85}b\u{a0}", "\u{1680}c\u{2028}\u{2029}", "d\u{202f}\u{205f}", "\u{200b}e"] {
        assert_eq!(trim(text), text.trim());
    }
}

#[test]
fn white_space_is_what_the_standard_library_says() {
    let mut code: u32 = 0;
    while code <= 0x3100 {
        if let Some(c) = char::from_u32(code) {
            assert_eq!(char_is_whitespace(c), c.is_whitespace());
        }
        code += 1;
    }
}

#[test]
fn order_is_by_code_point_and_prefix_first() {
    assert!(str_less("a", "b"));
    assert!(!str_less("b", "a"));
    assert!(str_less("", "a"));
    assert!(!str_less("a", ""));
    assert!(!str_less("", ""));
    assert!(str_less("ab", "abc"));
    assert!(!str_less("abc", "abc"));
    assert!(str_less("Z", "a"));
    assert!(str_less("z", "é"));
    assert!(str_less("EP10", "EP9"));
}

#[test]
fn order_agrees_with_the_standard_library() {
    let samples = ["", "a", "A", "ab", "b", "é", "z", "EP1A1", "EP1B1", "US9", "\u{10000}", "\u{ffff}"];
    for a in samples {
        for b in samples {
            assert_eq!(str_less(a, b), a < b);
        }
    }
}

#[test]
fn comparison_ignores_the_case_of_ascii_letters_only() {
    assert!(eq_ignore_ascii_case("abC", "ABc"));
    assert!(eq_ignore_ascii_case("", ""));
    assert!(eq_ignore_ascii_case("2aae6c35", "2AAE6C35"));
    assert!(!eq_ignore_ascii_case("a", "b"));
    assert!(!eq_ignore_ascii_case("a", "ab"));
    assert!(!eq_ignore_ascii_case("é", "É"));
    assert!(!eq_ignore_ascii_case("@", "`"));
    assert!(!eq_ignore_ascii_case("[", "{"));
}
