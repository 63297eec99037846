use vanity_search::suffix::suffix_matches;

#[test]
fn matching_suffix_is_found() {
    assert!(suffix_matches("aleo1xyzaaa", "aaa"));
    assert!(suffix_matches("abc", "abc"));
    assert!(suffix_matches("abc", "c"));
}

#[test]
fn non_matching_suffix_is_rejected() {
    assert!(!suffix_matches("abc", "b"));
    assert!(!suffix_matches("abc", "abcd"));
    assert!(!suffix_matches("", "a"));
}

#[test]
fn the_match_is_case_sensitive() {
    assert!(!suffix_matches("aBc", "bc"));
    assert!(suffix_matches("aBc", "Bc"));
}

#[test]
fn the_empty_suffix_matches_everything() {
    assert!(suffix_matches("abc", ""));
    assert!(suffix_matches("", ""));
}
