use nous_memory::candidates::CandidateAccumulator;
use nous_memory::families::{memory_family_ranks, FamilyRanks};
use nous_memory::refs::CognitiveRef;

#[test]
fn memory_candidates_are_credited_by_lane() {
    let mut candidates = CandidateAccumulator::default();
    candidates.add_dense(CognitiveRef::Memory(1), 3, "substring_fallback");
    candidates.add_posting(CognitiveRef::Memory(1), "entity_posting");
    candidates.add_posting(CognitiveRef::Memory(1), "anchor_posting");
    candidates.mark_exact(CognitiveRef::MemoryRevision(11));
    let ranks = memory_family_ranks(&candidates, 1, 11, false, true, false);
    assert_eq!(
        ranks,
        FamilyRanks {
            exact: Some(1),
            runtime: Some(1),
            lexical: None,
            semantic_dense: Some(3),
            entity: Some(1),
            temporal: None,
            tag_direct: None,
            anchor_direct: Some(1),
        }
    );
    candidates.add_lexical(CognitiveRef::Memory(2), 4);
    let other = memory_family_ranks(&candidates, 2, 22, false, false, true);
    assert_eq!(other.lexical, Some(4));
    assert_eq!(other.exact, None);
    assert_eq!(other.temporal, Some(1));
    assert_eq!(other.semantic_dense, None);
    let unknown = memory_family_ranks(&candidates, 3, 33, true, false, false);
    assert_eq!(unknown.exact, Some(1));
    assert_eq!(unknown.entity, None);
}
