use diff_by_time::fuzzy_matcher::FzfMatcher;

#[test]
fn test_fuzzy_matcher() {
    let matcher = FzfMatcher::new();

    // Test exact match
    let pat = "test";
    let result = matcher.exact_match(pat, "this is a test string");
    assert!(result.is_some());
    assert_eq!(result.unwrap().score, 1000 + (pat.len() as i64) * 10);

    // Test prefix match
    let pat = "this";
    let result = matcher.prefix_match(pat, "this is a test");
    assert!(result.is_some());
    assert_eq!(result.unwrap().score, 800 + (pat.len() as i64) * 8);

    // Test number match
    let result = matcher.number_match("123", "item 123: test");
    assert!(result.is_some());
    assert_eq!(result.unwrap().score, 1200);

    // Test fuzzy match
    let result = matcher.fuzzy_match("tst", "test");
    assert!(result.is_some());

    // Test no match
    let result = matcher.exact_match("xyz", "test string");
    assert!(result.is_none());
}

#[test]
fn test_match_and_sort() {
    let matcher = FzfMatcher::new();
    let items = vec![
        (1, "apple".to_string()),
        (2, "application".to_string()),
        (3, "banana".to_string()),
        (4, "app".to_string()),
    ];

    let results = matcher.match_and_sort("app", items);

    // Should return all items starting with "app", sorted by relevance
    assert_eq!(results.len(), 3);

    // "app" should be at the front (exact match)
    assert_eq!(results[0].0, 4);
    assert_eq!(results[0].1, "app");

    // "apple" and "application" should also have high scores
    assert!(results.iter().any(|(id, _, _)| *id == 1));
    assert!(results.iter().any(|(id, _, _)| *id == 2));
}

#[test]
fn test_highlight_matches() {
    let matcher = FzfMatcher::new();
    let result = matcher.fuzzy_match("tst", "test").unwrap();
    let highlighted = matcher.highlight_matches("test", &result.indices);

    // Should highlight matched characters
    assert!(highlighted.contains("\x1b[31m"));
    assert!(highlighted.contains("\x1b[0m"));
}

#[test]
fn exact_match_positions_are_the_first_occurrence() {
    let m = FzfMatcher::new();
    let r = m.exact_match("ab", "xxabab").unwrap();
    assert_eq!(r.indices, vec![2, 3]);
    assert_eq!(r.score, 1020);
}

#[test]
fn number_match_needs_digits_only() {
    let m = FzfMatcher::new();
    assert!(m.number_match("12a", "12a").is_none());
    assert_eq!(m.number_match("42", "x42").unwrap().indices, vec![1, 2]);
}

#[test]
fn comprehensive_match_prefers_numbers_then_exact_then_prefix() {
    let m = FzfMatcher::new();
    assert_eq!(m.comprehensive_match("", "anything").unwrap().score, 0);
    assert_eq!(m.comprehensive_match("12", "a12b").unwrap().score, 1200);
    assert_eq!(m.comprehensive_match("ls", "ls -l").unwrap().score, 1020);
    assert!(m.comprehensive_match("zzz", "ls -l").is_none());
}

#[test]
fn match_and_sort_keeps_input_order_for_equal_rank() {
    let m = FzfMatcher::default();
    let items = vec![(1, "xab".to_string()), (2, "yab".to_string())];
    let r = m.match_and_sort("ab", items);
    assert_eq!(r.len(), 2);
    assert_eq!(r[0].0, 1);
    assert_eq!(r[1].0, 2);
}

#[test]
fn highlight_without_positions_is_plain() {
    let m = FzfMatcher::new();
    assert_eq!(m.highlight_matches("abc", &[]), "abc");
    assert_eq!(m.highlight_matches("abc", &[1]), "a\x1b[31mb\x1b[0mc");
}
