use memsol_core::text::{
    chars_of, find_from, is_whitespace, lines, parse_i64, parse_u64, same_text, split_n_str, split_once_char,
    split_once_str, split_words, substring, trim_end,
};

#[test]
fn parses_unsigned_numbers_like_std() {
    for text in ["0", "42", "+7", "18446744073709551615", "18446744073709551616", "", "+", "-1", "1a", " 1", "007"] {
        assert_eq!(parse_u64(text), text.parse::<u64>().ok(), "{text:?}");
    }
}

#[test]
fn parses_signed_numbers_like_std() {
    for text in [
        "0",
        "-0",
        "+12",
        "-12",
        "9223372036854775807",
        "9223372036854775808",
        "-9223372036854775808",
        "-9223372036854775809",
        "-",
        "+",
        "--1",
        "+-1",
        "",
        "12 ",
    ] {
        assert_eq!(parse_i64(text), text.parse::<i64>().ok(), "{text:?}");
    }
}

#[test]
fn splits_once_like_std() {
    for (text, pat) in [("a>>b>>c", ">>"), (">>", ">>"), ("abc", ">>"), ("a>b", ">>"), ("x>>>y", ">>"), ("abc", ""), ("", "")] {
        let expected = text.split_once(pat).map(|(a, b)| (a.to_owned(), b.to_owned()));
        assert_eq!(split_once_str(text, pat), expected, "{text:?}");
    }
    for text in ["k=v", "k==v", "=", "kv", "é=ü"] {
        let expected = text.split_once('=').map(|(a, b)| (a.to_owned(), b.to_owned()));
        assert_eq!(split_once_char(text, '='), expected, "{text:?}");
    }
}

#[test]
fn splits_n_like_std() {
    for (text, n) in [("a,b,c,d,e", 4), ("a,b", 4), ("", 3), ("a,,b", 3), ("a,b,c", 1)] {
        let expected: Vec<String> = text.splitn(n, ',').map(str::to_owned).collect();
        assert_eq!(split_n_str(text, n, ','), expected, "{text:?}");
    }
}

#[test]
fn lines_and_words_like_std() {
    for text in ["a\nb\n", "a\r\nb", "", "\n", "x\n\ny", "one line", "trail\r"] {
        let expected: Vec<String> = text.lines().map(str::to_owned).collect();
        assert_eq!(lines(text), expected, "{text:?}");
    }
    for text in ["  a  b\tc\n", "", "   ", "x", "a\u{a0}b"] {
        let expected: Vec<String> = text.split_whitespace().map(str::to_owned).collect();
        assert_eq!(split_words(text), expected, "{text:?}");
    }
}

#[test]
fn trims_end_like_std() {
    for text in ["abc\n", "abc  \r\n", "  abc", "", " \t ", "a\u{3000}"] {
        assert_eq!(trim_end(text), text.trim_end(), "{text:?}");
    }
    for c in [' ', '\n', 'a', '\u{85}', '\u{2028}', '\u{200b}'] {
        assert_eq!(is_whitespace(c), c.is_whitespace(), "{c:?}");
    }
}

#[test]
fn small_helpers() {
    assert_eq!(chars_of("héllo"), vec!['h', 'é', 'l', 'l', 'o']);
    assert_eq!(substring("héllo", 1, 3), "él");
    assert!(same_text("abc", "abc"));
    assert!(!same_text("abc", "abd"));
    assert!(!same_text("abc", "ab"));
    assert_eq!(find_from(&vec!['a', 'b', 'a', 'b'], 1, &vec!['a', 'b']), Some(2));
    assert_eq!(find_from(&vec!['a', 'b'], 0, &vec!['c']), None);
}
