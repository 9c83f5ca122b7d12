use rust_rag::snippet::extract_snippet;

#[test]
fn empty_body_gives_empty_snippet() {
    assert_eq!(extract_snippet("", "x", 100), "");
}

#[test]
fn short_body_has_no_markers() {
    let s = extract_snippet("hello world", "world", 50);
    assert!(s.contains("world"));
    assert!(!s.contains("..."));
    assert_eq!(s, "hello world");
}

#[test]
fn match_is_case_insensitive_and_windowed() {
    // match at 4; window [4 - 2, 4 + 5 + 4) = [2, 13)
    assert_eq!(extract_snippet("The Quick Brown Fox", "quick", 6), "...e Quick Bro...");
}

#[test]
fn match_near_start_has_no_leading_marker() {
    assert_eq!(extract_snippet("Rust is fast and safe", "RUST", 9), "Rust is fa...");
}

#[test]
fn zero_budget_keeps_the_match() {
    assert_eq!(extract_snippet("hello world", "world", 0), "...world");
}

#[test]
fn window_is_trimmed() {
    // match at 6; window [5, 13) = " world  "
    assert_eq!(extract_snippet("abc   world   xyz", "world", 3), "...world...");
}

#[test]
fn missing_term_gives_trimmed_prefix_with_marker() {
    assert_eq!(extract_snippet("  abcdef", "zz", 5), "abc...");
}

#[test]
fn missing_term_in_short_body_is_whole_body() {
    assert_eq!(extract_snippet("abc", "zz", 10), "abc");
}

#[test]
fn term_longer_than_body_is_not_found() {
    assert_eq!(extract_snippet("abc", "abcdef", 2), "ab...");
}

#[test]
fn windows_fall_on_character_boundaries() {
    // characters, not bytes: match at 8; window [7, 14)
    assert_eq!(extract_snippet("Ünïcödé text here", "TEXT", 3), "...text h...");
}

#[test]
fn first_occurrence_is_used() {
    assert_eq!(extract_snippet("ab ab ab", "ab", 3), "ab a...");
}

#[test]
fn snippet_length_is_bounded() {
    let body = "x".repeat(1000) + "needle" + &"y".repeat(1000);
    let s = extract_snippet(&body, "needle", 30);
    assert!(s.contains("needle"));
    assert!(s.starts_with("..."));
    assert!(s.ends_with("..."));
    assert!(s.chars().count() <= 30 + 6 + 6);
}
