use nous_memory::candidates::CandidateAccumulator;
use nous_memory::posting_lane::{collect_posting_hits, posting_lane};
use nous_memory::postings::ExactPostings;
use nous_memory::refs::CognitiveRef;

#[test]
fn posting_keys_choose_their_lane() {
    assert_eq!(posting_lane("entity:host-person:alice"), "entity_posting");
    assert_eq!(posting_lane("tag:7"), "tag_posting");
    assert_eq!(posting_lane("anchor:3"), "anchor_posting");
    assert_eq!(posting_lane("entity"), "anchor_posting");
    assert_eq!(posting_lane(""), "anchor_posting");
}

#[test]
fn posting_hits_share_one_budget_in_key_order() {
    let mut postings = ExactPostings::default();
    postings.insert_reference("entity:alice", 2, CognitiveRef::Memory(20));
    postings.insert_reference("entity:alice", 1, CognitiveRef::Memory(10));
    postings.insert_reference("tag:coffee", 3, CognitiveRef::Memory(30));
    postings.insert_reference("tag:coffee", 4, CognitiveRef::Tag(40));
    let keys = vec!["entity:alice".to_string(), "tag:coffee".to_string(), "anchor:none".to_string()];
    let mut candidates = CandidateAccumulator::default();
    let taken = collect_posting_hits(&mut candidates, &postings, &keys, 3);
    assert_eq!(taken.len(), 3);
    assert!(taken[0].0.same_as(&CognitiveRef::Memory(10)) && taken[0].1 == "entity_posting");
    assert!(taken[1].0.same_as(&CognitiveRef::Memory(20)) && taken[1].1 == "entity_posting");
    assert!(taken[2].0.same_as(&CognitiveRef::Memory(30)) && taken[2].1 == "tag_posting");
    let hits = candidates.posting_hits(&CognitiveRef::Memory(30)).expect("candidate");
    assert_eq!(hits, &vec!["tag_posting".to_string()]);
    assert!(candidates.posting_hits(&CognitiveRef::Tag(40)).is_none());
    let mut none = CandidateAccumulator::default();
    assert!(collect_posting_hits(&mut none, &postings, &keys, 0).is_empty());
    let mut all = CandidateAccumulator::default();
    assert_eq!(collect_posting_hits(&mut all, &postings, &keys, 100).len(), 4);
}
