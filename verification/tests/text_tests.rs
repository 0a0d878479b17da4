use webcrawler::douban::{normalize_text, parse_people_count};
use webcrawler::text::{
    concat_text, contains, decimal_string, digits_of, parse_unsigned_text, starts_with, trim,
};

fn strings(parts: &[&str]) -> Vec<String> {
    parts.iter().map(|s| s.to_string()).collect()
}

#[test]
fn trim_removes_whitespace_at_both_ends() {
    assert_eq!(trim("  \t hello world \n"), "hello world");
    assert_eq!(trim("\u{3000}x\u{a0}"), "x");
    assert_eq!(trim("   "), "");
    assert_eq!(trim(""), "");
    assert_eq!(trim("a b"), "a b");
}

#[test]
fn normalize_text_collapses_whitespace() {
    assert_eq!(normalize_text(&strings(&["  x \n  y  "])), "x y");
    assert_eq!(normalize_text(&strings(&["a", "b"])), "a b");
    assert_eq!(normalize_text(&strings(&["ab", " ", "cd\t"])), "ab cd");
    assert_eq!(normalize_text(&strings(&[])), "");
    assert_eq!(normalize_text(&strings(&[" \n ", ""])), "");
    assert_eq!(normalize_text(&strings(&["导演: 弗兰克\u{a0}德拉邦特", "1994 / 美国"])), "导演: 弗兰克 德拉邦特 1994 / 美国");
}

#[test]
fn normalize_text_is_idempotent_on_an_example() {
    let once = normalize_text(&strings(&["  a\t\tb ", "  c  "]));
    let twice = normalize_text(&vec![once.clone()]);
    assert_eq!(once, "a b c");
    assert_eq!(twice, once);
}

#[test]
fn parse_people_count_reads_the_digits() {
    assert_eq!(parse_people_count("(3158430人评价)".to_string()), Some(3158430));
    assert_eq!(parse_people_count("1,234 people".to_string()), Some(1234));
    assert_eq!(parse_people_count("no digits".to_string()), None);
    assert_eq!(parse_people_count("".to_string()), None);
    assert_eq!(parse_people_count("4294967295".to_string()), Some(4294967295));
    assert_eq!(parse_people_count("4294967296".to_string()), None);
    assert_eq!(parse_people_count("007".to_string()), Some(7));
}

#[test]
fn parse_unsigned_text_follows_str_parse() {
    assert_eq!(parse_unsigned_text("42", 100), Some(42));
    assert_eq!(parse_unsigned_text("+42", 100), Some(42));
    assert_eq!(parse_unsigned_text("101", 100), None);
    assert_eq!(parse_unsigned_text("100", 100), Some(100));
    assert_eq!(parse_unsigned_text("+", 100), None);
    assert_eq!(parse_unsigned_text("", 100), None);
    assert_eq!(parse_unsigned_text("-1", 100), None);
    assert_eq!(parse_unsigned_text("4a", 100), None);
    assert_eq!(parse_unsigned_text("18446744073709551615", u64::MAX), Some(u64::MAX));
    assert_eq!(parse_unsigned_text("18446744073709551616", u64::MAX), None);
    for s in ["0", "7", "+12", "1x", " 1", "99999999999999999999"] {
        assert_eq!(parse_unsigned_text(s, u64::MAX), s.parse::<u64>().ok());
    }
}

#[test]
fn digits_and_decimals() {
    assert_eq!(digits_of("a1b2c3"), "123");
    assert_eq!(digits_of("一二三"), "");
    assert_eq!(decimal_string(0), "0");
    assert_eq!(decimal_string(225), "225");
    assert_eq!(decimal_string(u64::MAX), u64::MAX.to_string());
}

#[test]
fn concatenation_and_searching() {
    assert_eq!(concat_text("ab", "cd"), "abcd");
    assert_eq!(concat_text("", "中"), "中");
    assert!(starts_with("//item.jd.com", "//"));
    assert!(!starts_with("/", "//"));
    assert!(starts_with("abc", ""));
    assert!(contains("https://www.jd.com/risk_handler/x", "/risk_handler/"));
    assert!(!contains("https://www.jd.com/x", "/risk_handler/"));
    assert!(contains("abc", ""));
    assert!(!contains("ab", "abc"));
}

#[test]
fn numbers_written_read_back() {
    for n in [0u64, 9, 10, 225, 1000000, u64::MAX] {
        assert_eq!(parse_unsigned_text(&decimal_string(n), u64::MAX), Some(n));
    }
    assert_eq!(parse_unsigned_text(&decimal_string(101), 100), None);
}
