use nitro::text::{
    chars_of, decimal_text, eq_ignoring_case, parse_u64, same_text, text_after_last,
    text_before_first, text_second_field, trim,
};

#[test]
fn decimal_numbers_are_read_like_the_standard_library_reads_them() {
    for s in [
        "0",
        "7",
        "42",
        "+42",
        "007",
        "1234567",
        "18446744073709551615",
        "18446744073709551616",
        "99999999999999999999999",
        "",
        "+",
        "-",
        "-1",
        "-0",
        "++1",
        "1+",
        " 1",
        "1 ",
        "1_000",
        "0x10",
        "*",
        "\u{0661}",
    ] {
        assert_eq!(parse_u64(s), s.parse::<u64>().ok(), "{:?}", s);
    }
    assert_eq!(parse_u64("1234567"), Some(1234567));
    assert_eq!(parse_u64("18446744073709551616"), None);
}

#[test]
fn numbers_are_written_in_decimal_and_read_back() {
    for n in [0, 1, 9, 10, 11, 99, 100, 134217728, 1073741824, u64::MAX - 1, u64::MAX] {
        let text = decimal_text(n);
        assert_eq!(text, n.to_string());
        assert_eq!(parse_u64(&text), Some(n));
    }
}

#[test]
fn different_numbers_are_written_differently() {
    assert_ne!(decimal_text(1), decimal_text(10));
    assert_ne!(decimal_text(100), decimal_text(10));
}

#[test]
fn fields_are_split_at_separators() {
    assert_eq!(text_second_field("bytes 0-0/1234567", '/').as_deref(), Some("1234567"));
    assert_eq!(text_second_field("a/b/c", '/').as_deref(), Some("b"));
    assert_eq!(text_second_field("a/", '/').as_deref(), Some(""));
    assert_eq!(text_second_field("/", '/').as_deref(), Some(""));
    assert_eq!(text_second_field("abc", '/'), None);
    assert_eq!(text_second_field("", '/'), None);
    assert_eq!(text_after_last("https://e.com/d/f.iso?x=1", '/'), "f.iso?x=1");
    assert_eq!(text_after_last("plain", '/'), "plain");
    assert_eq!(text_after_last("dir/", '/'), "");
    assert_eq!(text_before_first("f.iso?x=1?y", '?'), "f.iso");
    assert_eq!(text_before_first("f.iso", '?'), "f.iso");
    assert_eq!(text_before_first("?x", '?'), "");
    assert_eq!(text_before_first("é/ü?ö", '?'), "é/ü");
}

#[test]
fn white_space_is_trimmed_like_the_standard_library_trims_it() {
    for s in [
        "",
        " ",
        "abc",
        "  abc \r\n",
        "\t a b \u{a0}",
        "\u{2003}x\u{3000}",
        "\u{feff}x",
        "\u{200b}x\u{200b}",
        "\u{85}\u{1680}\u{2028}\u{2029}\u{202f}\u{205f}y",
        "\u{1c}x",
    ] {
        assert_eq!(trim(s), s.trim(), "{:?}", s);
    }
    for code in 0..0x3100u32 {
        if let Some(c) = char::from_u32(code) {
            let s = format!("{}x{}", c, c);
            assert_eq!(trim(&s), s.trim(), "{:x}", code);
        }
    }
}

#[test]
fn letter_case_is_of_no_account() {
    assert!(eq_ignoring_case("exit", "EXIT"));
    assert!(eq_ignoring_case("", ""));
    assert!(!eq_ignoring_case("exit", "exits"));
    assert!(!eq_ignoring_case("[", "{"));
    assert!(!eq_ignoring_case("@", "`"));
    assert!(!eq_ignoring_case("É", "é"));
    for c in 0..256u32 {
        for d in 0..256u32 {
            let (c, d) = (char::from_u32(c).unwrap(), char::from_u32(d).unwrap());
            let (s, t) = (c.to_string(), d.to_string());
            assert_eq!(eq_ignoring_case(&s, &t), s.eq_ignore_ascii_case(&t));
        }
    }
}

#[test]
fn optional_texts_are_compared() {
    let a = Some("\"abc123\"".to_string());
    let b = Some("\"abc124\"".to_string());
    assert!(same_text(&a, &a.clone()));
    assert!(!same_text(&a, &b));
    assert!(!same_text(&a, &None));
    assert!(!same_text(&None, &b));
    assert!(same_text(&None, &None));
    assert_eq!(chars_of("aé"), vec!['a', 'é']);
}
