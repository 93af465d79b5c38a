use ppk2tui::text::{
    find, is_white_space, parse_i64, push_decimal, range_holds, same_text, text_holds, to_chars,
    trimmed,
};

#[test]
fn white_space_is_that_of_unicode() {
    for code in 0..=0x10FFFFu32 {
        if let Some(c) = char::from_u32(code) {
            assert_eq!(is_white_space(c), c.is_whitespace(), "{code:x}");
        }
    }
}

#[test]
fn trimming_takes_both_ends() {
    for text in ["", " ", "a", " a b\u{3000}\n", "\r\nµ\t", "\u{85}x\u{A0}"] {
        assert_eq!(trimmed(text), text.trim());
    }
}

#[test]
fn numerals_are_decimal() {
    for n in [0u64, 7, 10, 99, 100, 65535, u64::MAX] {
        let mut text = "x".to_string();
        push_decimal(&mut text, n);
        assert_eq!(text, format!("x{n}"));
    }
}

#[test]
fn integers_are_parsed_as_the_host_parses_them() {
    for text in [
        "",
        "+",
        "-",
        "0",
        "-0",
        "+17",
        "-17",
        "007",
        "1 ",
        "1_000",
        "--1",
        "9223372036854775807",
        "9223372036854775808",
        "-9223372036854775808",
        "-9223372036854775809",
        "99999999999999999999999",
        "١",
    ] {
        assert_eq!(parse_i64(text), text.parse::<i64>().ok(), "{text}");
    }
}

#[test]
fn patterns_are_found_where_they_stand() {
    for (text, pattern) in [
        ("END", "END"),
        ("--END\n", "END"),
        ("EN D", "END"),
        ("", "END"),
        ("EEND", "END"),
        ("abc", ""),
    ] {
        assert_eq!(text_holds(text, pattern), text.contains(pattern));
    }
    let chars = to_chars("xENDy");
    assert!(range_holds(&chars, 1, 4, "END"));
    assert!(!range_holds(&chars, 2, 5, "END"));
    assert_eq!(find(&chars, 0, 5, 'D'), 3);
    assert_eq!(find(&chars, 0, 3, 'D'), 3);
    assert_eq!(find(&chars, 4, 5, 'x'), 5);
}

#[test]
fn texts_are_compared_by_their_characters() {
    assert!(same_text("µA", "µA"));
    assert!(!same_text("µA", "uA"));
    assert!(!same_text("nA", "nAx"));
    assert!(same_text("", ""));
}
