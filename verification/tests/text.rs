use cm::text::{
    is_whitespace, len_of, lines_of, parse_usize, push_decimal, push_integer, replaced, slice_of,
    split_once, without_leading_space, without_outer_space, without_trailing_space,
};

#[test]
fn white_space_is_that_of_unicode() {
    for n in 0..=0x10ffff {
        if let Some(c) = char::from_u32(n) {
            assert_eq!(is_whitespace(c), c.is_whitespace(), "{:x}", n);
        }
    }
}

#[test]
fn trimming() {
    for text in ["", " ", "a", " a b ", "\t\u{3000}x\u{a0}\r\n", "\u{200b}y"] {
        assert_eq!(without_leading_space(text), text.trim_start());
        assert_eq!(without_trailing_space(text), text.trim_end());
        assert_eq!(without_outer_space(text), text.trim());
    }
}

#[test]
fn lines_end_at_line_feeds() {
    for text in ["", "\n", "a", "a\n", "a\n\nb", "\n\n", "x\ny\n\u{4e16}"] {
        let expected: Vec<&str> = text.lines().collect();
        assert_eq!(lines_of(text), expected);
    }
    assert_eq!(lines_of("a\r\nb"), vec!["a\r", "b"]);
}

#[test]
fn splitting() {
    assert_eq!(split_once("a=b=c", '='), ("a".to_string(), Some("b=c".to_string())));
    assert_eq!(split_once("=", '='), (String::new(), Some(String::new())));
    assert_eq!(split_once("ab", '='), ("ab".to_string(), None));
}

#[test]
fn decimal_numbers() {
    for n in [0, 7, 10, 99, 100, 4294967295, u64::MAX] {
        let mut text = "n=".to_string();
        push_decimal(&mut text, n);
        assert_eq!(text, format!("n={}", n));
    }
    for n in [0, 1, -1, 127, i32::MIN, i32::MAX] {
        let mut text = String::new();
        push_integer(&mut text, n);
        assert_eq!(text, n.to_string());
    }
}

#[test]
fn reading_numbers() {
    let max = usize::MAX.to_string();
    let over = format!("{}0", max);
    for text in [
        "0", "42", "+42", "007", "", "+", "-", "-0", "++1", "1+", " 1", "1_0", "0x1", "a", &max, &over,
        "18446744073709551616", "00000000000000000000000000000000001",
    ] {
        assert_eq!(parse_usize(text), text.parse::<usize>().ok(), "{}", text);
    }
}

#[test]
fn number_reads_back() {
    for n in [0, 9, 10, 12345, usize::MAX] {
        let mut text = String::new();
        push_decimal(&mut text, n as u64);
        assert_eq!(parse_usize(&text), Some(n));
    }
}

#[test]
fn replacing() {
    for (text, from, to) in [
        ("aaa", "aa", "b"),
        ("abab", "ab", "ab"),
        ("\\1\\1", "\\1", "\\1\\1"),
        ("", "x", "y"),
        ("xyz", "q", "r"),
        ("\u{e9}a\u{e9}", "\u{e9}", ""),
        ("short", "longer than that", "x"),
    ] {
        assert_eq!(replaced(text, from, to), text.replace(from, to));
    }
}

#[test]
fn slices() {
    let text = "a\u{e9}\u{4e16}b";
    for start in 0..10 {
        for end in 0..10 {
            assert_eq!(slice_of(text, start, end), text.get(start..end).unwrap_or(""));
        }
    }
    assert_eq!(len_of(text), 7);
}
