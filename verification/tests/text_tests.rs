use roomserver::http::read_string_buffer;
use roomserver::text::{
    char_is_space, chars_end_with, chars_equal, chars_of, find_separator, parse_usize,
    split_whitespace, trim_chars,
};

fn chars(s: &str) -> Vec<char> {
    s.chars().collect()
}

#[test]
fn read_string_buffer_trims_line() {
    assert_eq!(read_string_buffer(b"  Host: example \r\n"), "Host: example");
    assert_eq!(read_string_buffer(b"\r\n"), "");
    assert_eq!(read_string_buffer(b""), "");
    assert_eq!(read_string_buffer(b"\t\x0b\x0c a b \r\n"), "a b");
}

#[test]
fn read_string_buffer_replaces_invalid_utf8() {
    assert_eq!(read_string_buffer(&[0xff, b'a', b'\r', b'\n']), "\u{fffd}a");
    assert_eq!(read_string_buffer("é ".as_bytes()), "é");
}

#[test]
fn trim_uses_unicode_white_space() {
    assert_eq!(trim_chars(&chars("\u{3000}x\u{a0}")), chars("x"));
    assert_eq!(trim_chars(&chars("   ")), chars(""));
    assert_eq!(trim_chars(&chars("a  b")), chars("a  b"));
}

#[test]
fn white_space_characters() {
    for c in [' ', '\t', '\n', '\r', '\u{0b}', '\u{0c}', '\u{85}', '\u{a0}', '\u{1680}', '\u{2000}', '\u{200a}', '\u{2028}', '\u{2029}', '\u{202f}', '\u{205f}', '\u{3000}'] {
        assert!(char_is_space(c), "{:?}", c);
        assert!(c.is_whitespace());
    }
    for c in ['a', '\u{200b}', '\u{feff}', '\u{180e}', '0', '_'] {
        assert!(!char_is_space(c), "{:?}", c);
        assert_eq!(c.is_whitespace(), false);
    }
}

#[test]
fn split_whitespace_words() {
    let words = split_whitespace(&chars("  GET   /a?b  HTTP/1.1 "));
    assert_eq!(words, vec![chars("GET"), chars("/a?b"), chars("HTTP/1.1")]);
    assert_eq!(split_whitespace(&chars("")), Vec::<Vec<char>>::new());
    assert_eq!(split_whitespace(&chars(" \t ")), Vec::<Vec<char>>::new());
    assert_eq!(split_whitespace(&chars("one")), vec![chars("one")]);
}

#[test]
fn separator_position() {
    assert_eq!(find_separator(&chars("Host: x")), Some(4));
    assert_eq!(find_separator(&chars("a:b: c: d")), Some(3));
    assert_eq!(find_separator(&chars("Host:x")), None);
    assert_eq!(find_separator(&chars(":")), None);
    assert_eq!(find_separator(&chars(": ")), Some(0));
}

#[test]
fn parse_usize_like_std() {
    for s in ["0", "7", "007", "+5", "18446744073709551615", "-5", "+", "", "1 2", " 1", "12a", "18446744073709551616", "٣"] {
        assert_eq!(parse_usize(&chars(s)), s.parse::<usize>().ok(), "{:?}", s);
    }
    assert_eq!(parse_usize(&chars("+42")), Some(42));
    assert_eq!(parse_usize(&chars("99999999999999999999")), None);
}

#[test]
fn char_comparisons() {
    assert!(chars_end_with(&chars("XGET"), &chars("GET")));
    assert!(!chars_end_with(&chars("GE"), &chars("GET")));
    assert!(chars_equal(&chars("abc"), &chars("abc")));
    assert!(!chars_equal(&chars("abc"), &chars("abd")));
    assert!(!chars_equal(&chars("ab"), &chars("abc")));
}

#[test]
fn conversions() {
    assert_eq!(chars_of("héllo"), chars("héllo"));
    assert_eq!(chars_of(""), chars(""));
    assert_eq!(read_string_buffer("héllo".as_bytes()), "héllo");
    assert_eq!(read_string_buffer(&[b'a', 0xc3]), "a\u{fffd}");
}
