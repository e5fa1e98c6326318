use ekuke::db::like_pattern;
use ekuke::search::{
    effective_limit, extension_selected, is_text_extension, make_snippet, must_remove_old,
    SearchOptions,
};

#[test]
fn snippet_of_short_content_is_all_words() {
    assert_eq!(make_snippet("alpha  beta\nGamma delta", "GAMMA"), "alpha beta Gamma delta");
    assert_eq!(make_snippet("", "x"), "");
    assert_eq!(make_snippet("   ", "x"), "");
}

#[test]
fn snippet_centres_on_best_word() {
    let content: Vec<String> = (0..100).map(|i| format!("w{}", i)).collect();
    let content = content.join(" ");
    let expected: Vec<String> = (20..80).map(|i| format!("w{}", i)).collect();
    assert_eq!(make_snippet(&content, "W50"), format!("...{}", expected.join(" ")));
}

#[test]
fn snippet_matching_ignores_case() {
    let content: Vec<String> = (0..100).map(|i| if i == 50 { "Target".to_string() } else { format!("w{}", i) }).collect();
    let content = content.join(" ");
    let snip = make_snippet(&content, "TARGET");
    assert!(snip.starts_with("...w20 "));
    assert!(snip.contains(" Target "));
    assert!(snip.ends_with(" w79"));
}

#[test]
fn snippet_without_hits_starts_at_the_beginning() {
    let content: Vec<String> = (0..40).map(|i| format!("w{}", i)).collect();
    let content = content.join(" ");
    let expected: Vec<String> = (0..30).map(|i| format!("w{}", i)).collect();
    assert_eq!(make_snippet(&content, "zzz"), expected.join(" "));
}

#[test]
fn snippet_prefers_first_of_equal_scores() {
    assert_eq!(make_snippet("a cat b cat", "cat"), "a cat b cat");
    let content: Vec<String> = (0..70).map(|i| if i == 35 || i == 60 { "cat".to_string() } else { format!("w{}", i) }).collect();
    let content = content.join(" ");
    let snip = make_snippet(&content, "cat");
    assert!(snip.starts_with("...w5 "));
}

#[test]
fn search_options_and_files() {
    assert_eq!(effective_limit(&SearchOptions { limit: 0 }), 50);
    assert_eq!(effective_limit(&SearchOptions { limit: 7 }), 7);
    assert!(extension_selected(&vec![], "pdf"));
    assert!(extension_selected(&vec!["md".to_string(), "txt".to_string()], "txt"));
    assert!(!extension_selected(&vec!["md".to_string()], "txt"));
    assert!(is_text_extension("txt") && is_text_extension("md") && !is_text_extension("pdf"));
    assert!(must_remove_old("/a.md", "/b.md"));
    assert!(!must_remove_old("/a.md", "/a.md"));
}

#[test]
fn like_patterns_wrap_query() {
    assert_eq!(like_pattern("exa"), "%exa%");
    assert_eq!(like_pattern(""), "%%");
}
