use nous_memory::fallback::{all_terms_found, query_pattern, substring_fallback};

#[test]
fn every_term_must_occur_ignoring_case() {
    let text = "Alice prefers ETHIOPIAN Coffee";
    assert!(all_terms_found("ethiopian coffee", text));
    assert!(all_terms_found("  Ethiopian\tCOFFEE ", text));
    assert!(all_terms_found("fer", text));
    assert!(!all_terms_found("ethiopian tea", text));
    assert!(!all_terms_found("coffees", text));
    assert!(all_terms_found("", text));
    assert!(all_terms_found("ÉTÉ", "un été chaud"));
}

#[test]
fn fallback_applies_only_without_a_lexical_answer() {
    let text = "A portable bundle fact.";
    assert!(substring_fallback("portable bundle fact", text, false, false, false));
    assert!(!substring_fallback("portable bundle fact", text, true, false, false));
    assert!(!substring_fallback("portable bundle fact", text, false, true, false));
    assert!(substring_fallback("portable bundle fact", text, false, true, true));
    assert!(!substring_fallback("", text, false, false, false));
    assert!(!substring_fallback("second episode", text, false, false, false));
}

#[test]
fn query_patterns_join_cues_and_trim() {
    let cues = vec!["  Ethiopian".to_string(), "coffee \n".to_string()];
    assert_eq!(query_pattern(&cues), "Ethiopian coffee");
    assert_eq!(query_pattern(&[]), "");
    assert_eq!(query_pattern(&["".to_string(), " ".to_string()]), "");
    assert_eq!(query_pattern(&["a".to_string(), "".to_string(), "b".to_string()]), "a  b");
}
