use ekuke::text::{
    byte_slice, chars_of, concatenate, contains_char, eq_ignore_ascii_case, join_words, replace_all,
    split_whitespace, str_contains, str_eq, trim_end_char,
};

#[test]
fn chars_round_trip() {
    let v = chars_of("héllo");
    assert_eq!(v, vec!['h', 'é', 'l', 'l', 'o']);
    assert!(contains_char("héllo", 'é'));
    assert!(!contains_char("hello", 'é'));
}

#[test]
fn replace_all_replaces_every_occurrence() {
    assert_eq!(replace_all("{input}-{input}", "{input}", "x"), "x-x");
    assert_eq!(replace_all("aaa", "aa", "b"), "ba");
    assert_eq!(replace_all("none here", "{id}", "1"), "none here");
}

#[test]
fn trim_end_removes_all_trailing() {
    assert_eq!(trim_end_char("http://host/v1///", '/'), "http://host/v1");
    assert_eq!(trim_end_char("///", '/'), "");
    assert_eq!(trim_end_char("a/b", '/'), "a/b");
}

#[test]
fn contains_and_equality() {
    assert!(str_contains("http://localhost:8080", "localhost"));
    assert!(!str_contains("http://example.com", "localhost"));
    assert!(str_contains("abc", ""));
    assert!(str_eq("abc", "abc"));
    assert!(!str_eq("abc", "abd"));
}

#[test]
fn ascii_case_insensitive_equality() {
    assert!(eq_ignore_ascii_case("Example.COM", "example.com"));
    assert!(!eq_ignore_ascii_case("example", "examples"));
    assert!(!eq_ignore_ascii_case("É", "é"));
}

#[test]
fn whitespace_split_and_join() {
    let words = split_whitespace("  alpha\tbeta\u{3000}gamma \n");
    assert_eq!(words, vec!["alpha", "beta", "gamma"]);
    assert_eq!(join_words(&words, 0, 3), "alpha beta gamma");
    assert_eq!(join_words(&words, 1, 2), "beta");
    assert_eq!(join_words(&words, 1, 1), "");
    assert!(split_whitespace("   ").is_empty());
}


#[test]
fn byte_slices_and_concat() {
    let s = "aé b";
    assert_eq!(byte_slice(s, 1, 3), "é");
    assert_eq!(byte_slice(s, 0, 5), "aé b");
    assert_eq!(concatenate("ab", "cd"), "abcd");
}
