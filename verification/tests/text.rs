use irssi_tg::text::{
    byte_len, contains, decimal, decimal_signed, entries, first_word, join, pad_right, parse_i64, parse_usize,
    rsplit_once, same, spaces, split_on, split_once, starts_with, strip_prefix, trimmed, trimmed_end,
};

#[test]
fn trims_unicode_white_space() {
    assert_eq!(trimmed("  a b\t\u{3000}"), "a b");
    assert_eq!(trimmed("\u{a0}x\u{2028}"), "x");
    assert_eq!(trimmed(" \n "), "");
    assert_eq!(trimmed_end("  a  "), "  a");
}

#[test]
fn compares_texts() {
    assert!(same("żółw", "żółw"));
    assert!(!same("a", "A"));
    assert!(starts_with("/join x", "/join "));
    assert!(starts_with("abc", ""));
    assert!(!starts_with("ab", "abc"));
    assert!(contains("hello", "ell"));
    assert!(contains("hello", ""));
    assert!(!contains("hello", "lle"));
    assert_eq!(strip_prefix("/msg bob", "/msg "), Some("bob"));
    assert_eq!(strip_prefix("/msg", "/msg "), None);
}

#[test]
fn splits_texts() {
    assert_eq!(split_once("a=b=c", '='), Some(("a", "b=c")));
    assert_eq!(split_once("abc", '='), None);
    assert_eq!(rsplit_once("a@b@c", '@'), Some(("a@b", "c")));
    assert_eq!(rsplit_once("abc", '@'), None);
    assert_eq!(split_on("a,b,,c", ','), vec!["a", "b", "", "c"]);
    assert_eq!(split_on("", ','), vec![""]);
    assert_eq!(first_word("/foo bar"), "/foo");
    assert_eq!(first_word("   "), "");
    assert_eq!(entries(" a \r\n\n  b\n"), vec!["a", "b"]);
}

#[test]
fn writes_and_reads_numbers() {
    assert_eq!(decimal(0), "0");
    assert_eq!(decimal(1234567890123456789012), "1234567890123456789012");
    assert_eq!(decimal_signed(i64::MIN), "-9223372036854775808");
    assert_eq!(decimal_signed(-7), "-7");
    assert_eq!(decimal_signed(42), "42");
    assert_eq!(parse_usize("17"), Some(17));
    assert_eq!(parse_usize("+17"), Some(17));
    assert_eq!(parse_usize("007"), Some(7));
    assert_eq!(parse_usize(""), None);
    assert_eq!(parse_usize("+"), None);
    assert_eq!(parse_usize("-1"), None);
    assert_eq!(parse_usize("1x"), None);
    assert_eq!(parse_usize("99999999999999999999999"), None);
    assert_eq!(parse_i64("-17"), Some(-17));
    assert_eq!(parse_i64("+17"), Some(17));
    assert_eq!(parse_i64("--1"), None);
    assert_eq!(parse_i64("-"), None);
    assert_eq!(parse_i64(""), None);
    assert_eq!(parse_i64("9223372036854775808"), None);
    for n in [i64::MIN, -1, 0, 1, i64::MAX] {
        assert_eq!(parse_i64(&decimal_signed(n)), Some(n));
    }
    assert_eq!(parse_i64("-9223372036854775809"), None);
    assert_eq!(parse_usize(&decimal(usize::MAX as u128)), Some(usize::MAX));
}

#[test]
fn lays_out_text() {
    assert_eq!(spaces(3), "   ");
    assert_eq!(pad_right("ż", 3), "ż  ");
    assert_eq!(pad_right("abcd", 3), "abcd");
    let v = vec!["a".to_string(), "b".to_string(), "c".to_string()];
    assert_eq!(join(&v, " | "), "a | b | c");
    assert_eq!(join(&Vec::new(), ","), "");
    assert_eq!(byte_len("żół"), 6);
}
