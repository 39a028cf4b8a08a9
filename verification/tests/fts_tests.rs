use claude_history::fts::{build_match, is_advanced, quote_term};

#[test]
fn plain_term_with_dot_becomes_phrase() {
    assert_eq!(build_match("vector.yaml"), "\"vector.yaml\"");
}

#[test]
fn multiple_terms_are_each_quoted() {
    assert_eq!(build_match("vector.yaml config"), "\"vector.yaml\" \"config\"");
}

#[test]
fn trailing_star_is_preserved_as_prefix() {
    assert_eq!(build_match("metric*"), "\"metric\"*");
}

#[test]
fn advanced_queries_pass_through() {
    assert_eq!(build_match("sidekiq AND retry"), "sidekiq AND retry");
    assert_eq!(build_match("\"already quoted\""), "\"already quoted\"");
    assert_eq!(build_match("col:foo"), "col:foo");
}

#[test]
fn lone_star_is_dropped() {
    assert_eq!(build_match("*"), "");
}

#[test]
fn terms_are_matched_literally() {
    assert_eq!(build_match("vector.y*"), "\"vector.y\"*");
    assert_eq!(build_match("connection pool timeout"), "\"connection\" \"pool\" \"timeout\"");
    assert_eq!(build_match("a-b c/d"), "\"a-b\" \"c/d\"");
    assert_eq!(build_match("  spaced \t out  "), "\"spaced\" \"out\"");
    assert_eq!(build_match("x * y"), "\"x\" \"y\"");
    assert_eq!(build_match("**"), "\"*\"*");
}

#[test]
fn operators_are_recognised_only_in_uppercase() {
    assert_eq!(build_match("metric OR gauge"), "metric OR gauge");
    assert_eq!(build_match("metric or gauge"), "\"metric\" \"or\" \"gauge\"");
    assert_eq!(build_match("a NOT b"), "a NOT b");
    assert_eq!(build_match("NEAR(a b)"), "NEAR(a b)");
    assert_eq!(build_match("a NEAR b"), "a NEAR b");
    assert_eq!(build_match("NEARBY"), "\"NEARBY\"");
    assert_eq!(build_match("NEARBY vector.yaml"), "\"NEARBY\" \"vector.yaml\"");
    assert!(!is_advanced("NEARBY cafe"));
    assert!(!is_advanced("ORDER ANDROID NOTES"));
    assert_eq!(build_match("SAND"), "\"SAND\"");
}

#[test]
fn nothing_to_search_gives_nothing() {
    assert_eq!(build_match(""), "");
    assert_eq!(build_match(" \n "), "");
    assert_eq!(build_match("* *"), "");
    assert_eq!(build_match("\u{3000}*\t"), "");
}

#[test]
fn building_again_changes_nothing() {
    for q in ["vector.yaml config", "a OR b", "metric*", "", "(x)"] {
        let once = build_match(q);
        assert_eq!(build_match(&once), once);
    }
}

#[test]
fn one_term_is_quoted() {
    assert_eq!(quote_term("a"), Some("\"a\"".to_string()));
    assert_eq!(quote_term("a\"b"), Some("\"a\"\"b\"".to_string()));
    assert_eq!(quote_term("a*"), Some("\"a\"*".to_string()));
    assert_eq!(quote_term("*"), None);
    assert_eq!(quote_term(""), None);
    assert!(is_advanced("col:foo"));
    assert!(is_advanced("a)"));
    assert!(!is_advanced("plain.text"));
}
