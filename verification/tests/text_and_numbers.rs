use mango_workspaces::decimal::{parse_u32, push_decimal, push_signed_decimal, u32_text};
use mango_workspaces::glob::glob_match;
use mango_workspaces::text::{chars_of, joined, contains, is_blank, is_white_space_char};

#[test]
fn renders_u32_in_decimal() {
    assert_eq!(u32_text(0), "0");
    assert_eq!(u32_text(7), "7");
    assert_eq!(u32_text(10), "10");
    assert_eq!(u32_text(305), "305");
    assert_eq!(u32_text(u32::MAX), "4294967295");
}

#[test]
fn renders_signed_numbers() {
    let mut s = String::from("x=");
    push_signed_decimal(&mut s, -42);
    assert_eq!(s, "x=-42");
    let mut t = String::new();
    push_signed_decimal(&mut t, i64::MIN);
    assert_eq!(t, i64::MIN.to_string());
    let mut u = String::new();
    push_decimal(&mut u, u64::MAX);
    assert_eq!(u, u64::MAX.to_string());
}

#[test]
fn parses_like_std() {
    let cases = [
        "", "+", "-", "0", "007", "+7", "-1", "42", "1a", " 1", "4294967295", "4294967296",
        "99999999999x", "１",
    ];
    for case in cases {
        assert_eq!(parse_u32(case), case.parse::<u32>().ok(), "input {case:?}");
    }
}

#[test]
fn render_then_parse_gives_the_number_back() {
    for n in [0u32, 1, 9, 10, 99, 100, 65535, 1_000_000, u32::MAX] {
        assert_eq!(parse_u32(&u32_text(n)), Some(n));
    }
}

#[test]
fn globs_match_whole_text() {
    assert!(glob_match("1", "1"));
    assert!(!glob_match("1", "10"));
    assert!(glob_match("1*", "10"));
    assert!(glob_match("1*", "1"));
    assert!(glob_match("*", ""));
    assert!(glob_match("?", "7"));
    assert!(!glob_match("?", "17"));
    assert!(glob_match("*0", "100"));
    assert!(glob_match("1?0", "120"));
    assert!(!glob_match("1?0", "12"));
    assert!(glob_match("**9", "9"));
    assert!(!glob_match("", "1"));
    assert!(glob_match("", ""));
}

#[test]
fn finds_substrings() {
    assert!(contains("an error occurred", "error"));
    assert!(!contains("ok", "error"));
    assert!(contains("error", "error"));
    assert!(!contains("erro", "error"));
    assert!(contains("anything", ""));
    assert!(contains("", ""));
}

#[test]
fn recognises_blank_lines() {
    assert!(is_blank(""));
    assert!(is_blank("  \t\r\n"));
    assert!(is_blank("\u{3000}\u{a0}"));
    assert!(!is_blank(" x "));
    for c in ['\u{85}', '\u{2028}', '\u{200a}', '\u{1680}', 'a', '\u{200b}', '\u{feff}'] {
        assert_eq!(is_white_space_char(c), c.is_whitespace(), "char {c:?}");
    }
}

#[test]
fn splits_and_joins_text() {
    assert_eq!(chars_of("héllo"), vec!['h', 'é', 'l', 'l', 'o']);
    assert_eq!(joined("get tags ", "DP-1"), "get tags DP-1");
}
