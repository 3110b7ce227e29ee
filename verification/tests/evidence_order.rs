use nous_memory::candidates::CandidateAccumulator;
use nous_memory::evidence_order::{ranked_lexical_evidence, EvidenceKind};
use nous_memory::refs::CognitiveRef;

#[test]
fn lexical_evidence_joins_by_rank_then_identifier() {
    let mut candidates = CandidateAccumulator::default();
    candidates.add_lexical(CognitiveRef::DerivedRepresentation(5), 2);
    candidates.add_lexical(CognitiveRef::DerivedRepresentation(3), 2);
    candidates.add_lexical(CognitiveRef::DerivedRepresentation(9), 1);
    candidates.add_lexical(CognitiveRef::Occurrence(1), 1);
    candidates.add_lexical(CognitiveRef::Memory(1), 1);
    candidates.add_dense(CognitiveRef::Occurrence(2), 1, "direct_dense");
    assert_eq!(
        ranked_lexical_evidence(&candidates, EvidenceKind::DerivedRepresentation, 10),
        vec![(1, 9), (2, 3), (2, 5)]
    );
    assert_eq!(
        ranked_lexical_evidence(&candidates, EvidenceKind::DerivedRepresentation, 2),
        vec![(1, 9), (2, 3)]
    );
    assert!(ranked_lexical_evidence(&candidates, EvidenceKind::DerivedRepresentation, 0).is_empty());
    assert_eq!(ranked_lexical_evidence(&candidates, EvidenceKind::Occurrence, 5), vec![(1, 1)]);
}
