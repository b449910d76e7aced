use capsule_box::text::{
    after_last_stop, can_take_bytes, chars_of, decimal_text, join, join_path, join_words,
    padded_hex_text, parse_unsigned, same_text, signed_decimal_text, take_bytes, trim,
};

#[test]
fn numbers_are_written_in_decimal() {
    assert_eq!(decimal_text(0), "0");
    assert_eq!(decimal_text(10), "10");
    assert_eq!(decimal_text(u64::MAX), "18446744073709551615");
    assert_eq!(signed_decimal_text(-1), "-1");
    assert_eq!(signed_decimal_text(i32::MIN), "-2147483648");
    assert_eq!(signed_decimal_text(137), "137");
}

#[test]
fn numbers_are_written_in_hexadecimal() {
    assert_eq!(padded_hex_text(0xdeadbeef, 12), "0000deadbeef");
    assert_eq!(padded_hex_text(0xdeadbeef, 4), "beef");
    assert_eq!(padded_hex_text(1, 0), "");
}

#[test]
fn numbers_are_read() {
    assert_eq!(parse_unsigned("255", 255), Some(255));
    assert_eq!(parse_unsigned("256", 255), None);
    assert_eq!(parse_unsigned("+0", 255), Some(0));
    assert_eq!(parse_unsigned("+", 255), None);
    assert_eq!(parse_unsigned("++1", 255), None);
    assert_eq!(parse_unsigned("", 255), None);
    assert_eq!(parse_unsigned(" 1", 255), None);
    assert_eq!(parse_unsigned("1a", 255), None);
    assert_eq!(parse_unsigned("18446744073709551615", u64::MAX), Some(u64::MAX));
    assert_eq!(parse_unsigned("18446744073709551616", u64::MAX), None);
    for n in [0u64, 9, 10, 99, 100, 12345, u64::MAX] {
        assert_eq!(parse_unsigned(&decimal_text(n), u64::MAX), Some(n));
    }
}

#[test]
fn white_space_is_trimmed() {
    for s in ["", " ", "a", " a b\t\n", "\u{2003}x\u{85}", "\u{feff}x", "\u{180e}x\u{200b}"] {
        assert_eq!(trim(s), s.trim());
    }
}

#[test]
fn paths_are_joined() {
    for (base, relative) in
        [("/a", "b"), ("/a/", "b"), ("/a", "/b"), ("", "b"), ("/a", ""), ("/a", "b/c"), ("/", "b")]
    {
        let joined = std::path::Path::new(base).join(relative);
        assert_eq!(join_path(base, relative), joined.to_str().unwrap());
    }
}

#[test]
fn words_are_joined() {
    let words = vec!["a".to_string(), "".to_string(), "b c".to_string()];
    assert_eq!(join_words(&words, " "), "a  b c");
    assert_eq!(join_words(&vec![], " "), "");
    assert_eq!(join("a", "b"), "ab");
}

#[test]
fn text_is_cut_at_bytes() {
    assert_eq!(take_bytes("000012ab34cd", 8), "000012ab");
    assert_eq!(take_bytes("abc", 8), "abc");
    assert_eq!(take_bytes("容器", 3), "容");
    assert!(!can_take_bytes("容器", 4));
    assert!(can_take_bytes("容器", 6));
    assert!(can_take_bytes("容器", 99));
}

#[test]
fn segments_and_characters() {
    assert_eq!(after_last_stop("10.0.0.5"), "5");
    assert_eq!(after_last_stop("x"), "x");
    assert_eq!(after_last_stop("x."), "");
    assert_eq!(chars_of("a容"), vec!['a', '容']);
    assert!(same_text("a", "a"));
    assert!(!same_text("a", "b"));
}
