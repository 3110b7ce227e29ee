use nous_memory::postings::ExactPostings;
use nous_memory::refs::CognitiveRef;

#[test]
fn posting_is_visible_under_its_key_only() {
    let mut postings = ExactPostings::default();
    assert!(postings.get("entity:alice").is_none());
    postings.insert("entity:alice", 4);
    postings.insert("entity:alice", 2);
    postings.insert("tag:coffee", 9);
    let alice: Vec<u32> = postings.get("entity:alice").expect("posted").iter().collect();
    assert_eq!(alice, vec![2, 4]);
    let coffee: Vec<u32> = postings.get("tag:coffee").expect("posted").iter().collect();
    assert_eq!(coffee, vec![9]);
    assert!(postings.get("tag:tea").is_none());
    let mut keys = postings.keys();
    keys.sort();
    assert_eq!(keys, vec!["entity:alice".to_string(), "tag:coffee".to_string()]);
}

#[test]
fn posting_twice_changes_nothing() {
    let mut postings = ExactPostings::default();
    postings.insert("k", 1);
    postings.insert("k", 1);
    assert_eq!(postings.get("k").expect("posted").len(), 1);
    assert_eq!(postings.keys().len(), 1);
}

#[test]
fn references_follow_ascending_identifiers_without_repeats() {
    let mut postings = ExactPostings::default();
    postings.insert_reference("entity:alice", 7, CognitiveRef::Memory(70));
    postings.insert_reference("entity:alice", 3, CognitiveRef::Memory(30));
    postings.insert_reference("entity:alice", 3, CognitiveRef::Memory(30));
    postings.insert_reference("entity:alice", 3, CognitiveRef::Tag(31));
    postings.insert_reference("tag:x", 7, CognitiveRef::Memory(70));
    let refs = postings.references("entity:alice");
    assert_eq!(refs.len(), 3);
    assert!(refs[0].same_as(&CognitiveRef::Memory(30)));
    assert!(refs[1].same_as(&CognitiveRef::Tag(31)));
    assert!(refs[2].same_as(&CognitiveRef::Memory(70)));
    let tagged = postings.references("tag:x");
    assert_eq!(tagged.len(), 1);
    assert!(tagged[0].same_as(&CognitiveRef::Memory(70)));
    assert!(postings.references("unknown").is_empty());
}

#[test]
fn posted_identifier_without_reference_contributes_none() {
    let mut postings = ExactPostings::default();
    postings.insert("k", 5);
    postings.insert_reference("k", 6, CognitiveRef::Session(1));
    let refs = postings.references("k");
    assert_eq!(refs.len(), 1);
    assert!(refs[0].same_as(&CognitiveRef::Session(1)));
}

#[test]
fn a_memory_is_posted_under_all_its_keys() {
    let mut postings = ExactPostings::default();
    let entries = vec![
        ("memory:1".to_string(), CognitiveRef::Memory(1)),
        ("memory_revision:11".to_string(), CognitiveRef::MemoryRevision(11)),
        ("entity:alice".to_string(), CognitiveRef::Entity("alice".to_string())),
        ("tag:7".to_string(), CognitiveRef::Tag(7)),
    ];
    postings.insert_references(&entries, 0);
    postings.insert_references(&[("entity:alice".to_string(), CognitiveRef::Entity("alice".to_string()))], 1);
    for (key, _) in &entries {
        assert!(postings.get(key).expect("posted").contains(0));
    }
    let alice: Vec<u32> = postings.get("entity:alice").expect("posted").iter().collect();
    assert_eq!(alice, vec![0, 1]);
    let refs = postings.references("tag:7");
    assert_eq!(refs.len(), 4);
    assert!(refs[0].same_as(&CognitiveRef::Memory(1)));
    assert!(refs[3].same_as(&CognitiveRef::Tag(7)));
}
