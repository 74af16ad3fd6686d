use diff_by_time::numbers::{parse_i32, parse_u32, parse_usize};
use diff_by_time::path::join;
use diff_by_time::short_code::{encode_bijective_base62, first_unused_code};
use diff_by_time::storage::Timestamp;
use diff_by_time::text::{decimal, signed_decimal, trim_str};
use diff_by_time::time_order::sort_by_time;
use diff_by_time::words::{contains_text, is_subsequence, split_words, split_words_by};

#[test]
fn parsing_numbers_as_std_does() {
    assert_eq!(parse_usize("42"), Some(42));
    assert_eq!(parse_usize("+7"), Some(7));
    assert_eq!(parse_usize("-1"), None);
    assert_eq!(parse_usize(""), None);
    assert_eq!(parse_usize(" 1"), None);
    assert_eq!(parse_usize("18446744073709551616"), None);
    assert_eq!(parse_u32("4294967295"), Some(4294967295));
    assert_eq!(parse_u32("4294967296"), None);
    assert_eq!(parse_i32("-2147483648"), Some(-2147483648));
    assert_eq!(parse_i32("2147483648"), None);
    assert_eq!(parse_i32("-"), None);
    assert_eq!(parse_i32("0012"), Some(12));
}

#[test]
fn decimal_texts() {
    assert_eq!(decimal(0), "0");
    assert_eq!(decimal(1700000000), "1700000000");
    assert_eq!(signed_decimal(-5), "-5");
    assert_eq!(signed_decimal(i64::MIN), "-9223372036854775808");
    assert_eq!(trim_str(" \t a b \n"), "a b");
}

#[test]
fn words_and_substrings() {
    assert_eq!(split_words("  ls  -l\tx "), vec!["ls", "-l", "x"]);
    assert_eq!(split_words_by("a,b  c", true), vec!["a", "b", "c"]);
    assert_eq!(split_words_by("a,b  c", false), vec!["a,b", "c"]);
    assert!(contains_text("hello world", "o w"));
    assert!(contains_text("abc", ""));
    assert!(!contains_text("abc", "abcd"));
    assert!(is_subsequence("lsl", "ls -l"));
    assert!(!is_subsequence("ll", "ls"));
}

#[test]
fn joining_paths() {
    assert_eq!(join("/a", "b"), "/a/b");
    assert_eq!(join("/a/", "b"), "/a/b");
    assert_eq!(join("", "b"), "b");
    assert_eq!(join("/a", "/etc"), "/etc");
}

#[test]
fn bijective_base62_codes() {
    assert_eq!(encode_bijective_base62(52), "Z");
    assert_eq!(encode_bijective_base62(53), "0");
    assert_eq!(encode_bijective_base62(124), "a9");
    assert_eq!(encode_bijective_base62(125), "ba");
    assert_eq!(first_unused_code(&vec!["b".to_string(), "a".to_string()]), "c");
    assert_eq!(first_unused_code(&Vec::new()), "a");
}

#[test]
fn stable_time_sort() {
    let t = |s: i64| Timestamp { secs: s, nanos: 0 };
    let items = vec![(t(2), "x"), (t(1), "y"), (t(2), "z"), (t(0), "w")];
    let old_first: Vec<&str> = sort_by_time(items.clone(), false).into_iter().map(|p| p.1).collect();
    assert_eq!(old_first, vec!["w", "y", "x", "z"]);
    let new_first: Vec<&str> = sort_by_time(items, true).into_iter().map(|p| p.1).collect();
    assert_eq!(new_first, vec!["x", "z", "y", "w"]);
}
