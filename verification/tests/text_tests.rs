use diwk::text::str_contains_ci;

#[test]
fn finds_substrings_ignoring_ascii_case() {
    assert!(str_contains_ci("Hello World", "o w"));
    assert!(str_contains_ci("PIZZA", "pizza"));
    assert!(str_contains_ci("pizza", "ZZ"));
    assert!(str_contains_ci("abc", "abc"));
}

#[test]
fn misses_absent_substrings() {
    assert!(!str_contains_ci("abc", "z"));
    assert!(!str_contains_ci("abc", "abcd"));
    assert!(!str_contains_ci("", "a"));
}

#[test]
fn empty_needle_matches_everything() {
    assert!(str_contains_ci("", ""));
    assert!(str_contains_ci("anything", ""));
}

#[test]
fn non_letters_compare_exactly() {
    assert!(str_contains_ci("a-b", "-"));
    assert!(!str_contains_ci("a-b", "_"));
}
