use dylib_kit::text;

#[test]
fn white_space_is_that_of_the_standard_library() {
    for n in 0u32..0x3100 {
        if let Some(c) = char::from_u32(n) {
            assert_eq!(text::white(c), c.is_whitespace(), "{:?}", c);
        }
    }
    assert!(!text::white('\u{feff}'));
}

#[test]
fn trimming_and_lines_are_those_of_the_standard_library() {
    let samples = [
        "", " ", "a", " a ", "\t a b \n", "\u{3000}x\u{a0}", "a\nb", "a\nb\n", "\n", "\n\n", "a\r\nb",
        "a\r\n", "\r\n", "a\rb", "a\r", "\r", "a\r\r\n", "x\n\ny", "ä\nß\n",
    ];
    for s in samples.iter() {
        assert_eq!(text::trim(s), s.trim());
        let lines: Vec<String> = s.lines().map(|l| l.to_string()).collect();
        assert_eq!(text::lines(s), lines, "{:?}", s);
    }
}

#[test]
fn searching_is_that_of_the_standard_library() {
    let samples = ["", "a", "ab", "aab", "abab", "äb", "b", "ba"];
    for s in samples.iter() {
        for t in samples.iter() {
            assert_eq!(text::contains(s, t), s.contains(t), "{:?} in {:?}", t, s);
            assert_eq!(text::starts_with(s, t), s.starts_with(t));
            assert_eq!(text::text_eq(s, t), s == t);
        }
    }
}

#[test]
fn numbers_are_written_in_decimal() {
    for n in [0u64, 7, 10, 99, 100, 1234567890, u64::MAX] {
        assert_eq!(text::decimal_text(n), n.to_string());
    }
}

#[test]
fn padding_and_shortening_count_characters() {
    assert_eq!(text::pad("äb", 5), format!("{:<5}", "äb"));
    assert_eq!(text::pad("abcdef", 3), "abcdef");
    assert_eq!(text::shorten("äbcd", 2), format!("{:.2}", "äbcd"));
    assert_eq!(text::shorten("a", 2), "a");
    let parts = vec!["a".to_string(), "".to_string(), "c".to_string()];
    assert_eq!(text::join(&parts, " | "), "a |  | c");
    assert_eq!(text::join(&Vec::new(), ", "), "");
}
