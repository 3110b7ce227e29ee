use nous_memory::error::Error;
use nous_memory::formation::{
    check_mention_surfaces, check_proposal_count, first_of_each_key, join_words, proposal_key,
    MAX_FORMATION_PROPOSALS,
};

#[test]
fn mention_surfaces_must_not_be_blank() {
    assert!(check_mention_surfaces(&[]).is_ok());
    assert!(check_mention_surfaces(&["Ada".to_string(), " Lovelace ".to_string()]).is_ok());
    assert!(matches!(
        check_mention_surfaces(&["Ada".to_string(), " \t".to_string()]),
        Err(Error::Invalid(_))
    ));
    assert!(matches!(check_mention_surfaces(&[String::new()]), Err(Error::Invalid(_))));
}

#[test]
fn proposals_are_bounded() {
    assert_eq!(MAX_FORMATION_PROPOSALS, 32);
    assert!(check_proposal_count(0).is_ok());
    assert!(check_proposal_count(32).is_ok());
    assert!(matches!(check_proposal_count(33), Err(Error::Invalid(_))));
}

#[test]
fn words_are_joined_by_single_spaces() {
    assert_eq!(join_words("  Ada\t met\n\nCharles  "), "Ada met Charles");
    assert_eq!(join_words(""), "");
    assert_eq!(join_words(" \u{3000} "), "");
    assert_eq!(join_words("one"), "one");
}

#[test]
fn proposal_keys_ignore_spacing_and_case() {
    assert_eq!(proposal_key(" Ada  MET Charles", "[1]"), "ada met charles\0[1]");
    assert_eq!(proposal_key("ada met charles ", "[1]"), proposal_key(" Ada  MET Charles", "[1]"));
    assert_ne!(proposal_key("ada met charles", "[2]"), proposal_key("ada met charles", "[1]"));
}

#[test]
fn repeated_proposals_are_skipped() {
    let keys: Vec<String> = ["a", "b", "a", "c", "b"].iter().map(|s| s.to_string()).collect();
    assert_eq!(first_of_each_key(&keys), vec![true, true, false, true, false]);
    assert!(first_of_each_key(&[]).is_empty());
}
