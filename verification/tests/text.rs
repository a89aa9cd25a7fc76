use check_login::text::{
    Sep, chars_eq, chars_of, contains, decimal_i32, decimal_u64, is_whitespace, parse_i32,
    parse_isize, parse_u32, parse_u64, parse_u8, parse_usize, split, split_lines, starts_with,
    subvec, trim_chars,
};

fn cs(s: &str) -> Vec<char> {
    s.chars().collect()
}

fn st(v: &[char]) -> String {
    v.iter().collect()
}

#[test]
fn split_like_str_split() {
    for (text, sep) in [("a,b,,c", ','), ("", ','), (",", ','), ("abc", ','), ("a|b|", '|')] {
        let got: Vec<String> = split(&cs(text), Sep::Char(sep)).iter().map(|p| st(p)).collect();
        let want: Vec<String> = text.split(sep).map(|p| p.to_string()).collect();
        assert_eq!(got, want);
    }
}

#[test]
fn split_at_whitespace_like_str() {
    for text in ["  a b\t c\n", "", "   ", "x", "a\u{3000}b"] {
        let got: Vec<String> = split(&cs(text), Sep::Whitespace).iter().map(|p| st(p)).collect();
        let want: Vec<String> = text.split(char::is_whitespace).map(|p| p.to_string()).collect();
        assert_eq!(got, want);
    }
}

#[test]
fn lines_like_str_lines() {
    for text in ["a\nb\r\nc", "a\n", "", "\n\n", "x\r", "a\r\n\r\n"] {
        let got: Vec<String> = split_lines(&cs(text)).iter().map(|p| st(p)).collect();
        let want: Vec<String> = text.lines().map(|p| p.to_string()).collect();
        assert_eq!(got, want);
    }
}

#[test]
fn trims_like_str() {
    assert_eq!(st(&trim_chars(&cs("  a b \n"), Sep::Whitespace)), "a b");
    assert_eq!(st(&trim_chars(&cs("\"12\""), Sep::Char('"'))), "12");
    assert_eq!(st(&trim_chars(&cs("\u{a0}x\u{2003}"), Sep::Whitespace)), "x");
    assert_eq!(st(&trim_chars(&cs(""), Sep::Whitespace)), "");
    assert!(is_whitespace('\u{85}'));
    assert!(!is_whitespace('x'));
}

#[test]
fn parses_like_str_parse() {
    for t in ["0", "+7", "-7", "255", "256", "", "+", "-", "12a", "-0", "4294967295", "4294967296",
              "-2147483648", "2147483647", "2147483648", "18446744073709551615", "99999999999999999999999"] {
        let v = cs(t);
        assert_eq!(parse_i32(&v), t.parse::<i32>().ok(), "i32 {}", t);
        assert_eq!(parse_u32(&v), t.parse::<u32>().ok(), "u32 {}", t);
        assert_eq!(parse_u8(&v), t.parse::<u8>().ok(), "u8 {}", t);
        assert_eq!(parse_u64(&v), t.parse::<u64>().ok(), "u64 {}", t);
        assert_eq!(parse_usize(&v), t.parse::<usize>().ok(), "usize {}", t);
        assert_eq!(parse_isize(&v), t.parse::<isize>().ok(), "isize {}", t);
    }
}

#[test]
fn decimal_numerals() {
    assert_eq!(st(&decimal_u64(0)), "0");
    assert_eq!(st(&decimal_u64(u64::MAX)), u64::MAX.to_string());
    assert_eq!(st(&decimal_i32(i32::MIN)), i32::MIN.to_string());
    assert_eq!(st(&decimal_i32(-45)), "-45");
}

#[test]
fn searching() {
    assert!(contains(&cs("is running now"), &cs("running")));
    assert!(!contains(&cs("runnin"), &cs("running")));
    assert!(contains(&cs("abc"), &cs("")));
    assert!(starts_with(&cs("LD-12"), &cs("LD-")));
    assert!(!starts_with(&cs("L"), &cs("LD-")));
    assert!(chars_eq(&cs("a"), &cs("a")));
    assert!(!chars_eq(&cs("a"), &cs("ab")));
    assert_eq!(st(&subvec(&cs("hello"), 1, 3)), "el");
    assert_eq!(chars_of("héllo"), cs("héllo"));
}
