use jgrep::text::{
    chars_of, decimal_chars, find_char, is_blank_chars, join_lines_chars, join_strings, parse_usize,
    split_lines, string_of, trim_chars, trim_end_chars,
};

fn chars(s: &str) -> Vec<char> {
    s.chars().collect()
}

#[test]
fn trimming_like_str() {
    for s in ["  a b \t", "", " \u{3000}x\u{a0}", "\n\r", "plain"] {
        assert_eq!(string_of(&trim_chars(&chars(s))), s.trim());
        assert_eq!(string_of(&trim_end_chars(&chars(s))), s.trim_end());
        assert_eq!(is_blank_chars(&chars(s)), s.trim().is_empty());
    }
}

#[test]
fn lines_like_str_lines() {
    for s in ["a\nb", "a\r\nb\r\n", "\n\n", "", "x\n", "a\r\rb\r\n\r"] {
        let lines: Vec<String> = split_lines(&chars(s)).iter().map(string_of).collect();
        let expected: Vec<String> = s.lines().map(str::to_string).collect();
        assert_eq!(lines, expected);
    }
    let joined = join_lines_chars(&vec![chars("a"), chars(""), chars("b")]);
    assert_eq!(string_of(&joined), "a\n\nb");
    assert_eq!(join_strings(&vec!["x".to_string(), "y".to_string()], ", "), "x, y");
}

#[test]
fn decimals_read_back() {
    for n in [0usize, 7, 10, 42, 1000, usize::MAX] {
        let d = decimal_chars(n);
        assert_eq!(string_of(&d), n.to_string());
        assert_eq!(parse_usize(&d), Some(n));
    }
    assert_eq!(parse_usize(&chars("+12")), Some(12));
    assert_eq!(parse_usize(&chars("+")), None);
    assert_eq!(parse_usize(&chars("-1")), None);
    assert_eq!(parse_usize(&chars("1 ")), None);
    assert_eq!(parse_usize(&chars("18446744073709551616")), None);
}

#[test]
fn finding_a_character() {
    assert_eq!(find_char(&chars("a:b:c"), ':'), Some(1));
    assert_eq!(find_char(&chars("abc"), ':'), None);
    assert_eq!(chars_of("héllo"), chars("héllo"));
}
