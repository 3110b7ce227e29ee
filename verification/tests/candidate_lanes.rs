use nous_memory::candidates::CandidateAccumulator;
use nous_memory::refs::CognitiveRef;

fn holds(list: &[String], name: &str) -> bool {
    list.iter().any(|item| item == name)
}

fn rank_of(ranks: &[(CognitiveRef, usize)], reference: &CognitiveRef) -> Option<usize> {
    ranks.iter().find(|(r, _)| r.same_as(reference)).map(|(_, rank)| *rank)
}

#[test]
fn substring_fallback_never_claims_lexical_family() {
    let reference = CognitiveRef::Memory(0x0195_0000_0000_7000_8000_0000_0000_0001);
    let mut candidates = CandidateAccumulator::default();
    candidates.add_dense(reference.duplicate(), 1, "substring_fallback");
    candidates.add_dense(reference.duplicate(), 1, "direct_dense");
    assert!(rank_of(&candidates.lexical_ranks(), &reference).is_none());
    assert!(rank_of(&candidates.dense_ranks(), &reference).is_some());
    assert!(candidates
        .dense_variant_set(&reference)
        .is_some_and(|variants| holds(variants, "substring_fallback") && holds(variants, "direct_dense")));
}

#[test]
fn ranks_keep_the_best_hit() {
    let a = CognitiveRef::Tag(7);
    let mut candidates = CandidateAccumulator::default();
    candidates.add_lexical(a.duplicate(), 5);
    candidates.add_lexical(a.duplicate(), 2);
    candidates.add_lexical(a.duplicate(), 9);
    assert_eq!(rank_of(&candidates.lexical_ranks(), &a), Some(2));
    candidates.add_dense(a.duplicate(), 4, "direct_dense");
    candidates.add_dense(a.duplicate(), 8, "direct_dense");
    assert_eq!(rank_of(&candidates.dense_ranks(), &a), Some(4));
    let variants = candidates.dense_variant_set(&a).expect("dense variants");
    assert_eq!(variants.len(), 1);
}

#[test]
fn exact_and_runtime_marks_and_postings() {
    let a = CognitiveRef::Entity("host:alice".to_string());
    let b = CognitiveRef::Anchor(3);
    let mut candidates = CandidateAccumulator::default();
    assert!(!candidates.is_exact(&a));
    assert!(candidates.posting_hits(&a).is_none());
    candidates.mark_exact(a.duplicate());
    candidates.add_posting(b.duplicate(), "entity");
    candidates.add_posting(b.duplicate(), "entity");
    candidates.add_posting(b.duplicate(), "tag");
    candidates.mark_runtime(b.duplicate());
    candidates.add_lexical(b.duplicate(), 1);
    assert!(candidates.is_exact(&a));
    assert!(!candidates.is_exact(&b));
    let hits = candidates.posting_hits(&b).expect("postings");
    assert_eq!(hits.len(), 2);
    assert!(holds(hits, "entity") && holds(hits, "tag"));
    assert!(candidates.posting_hits(&a).is_some_and(|hits| hits.is_empty()));
    let refs = candidates.candidate_refs();
    assert_eq!(refs.len(), 2);
    assert!(refs.iter().any(|r| r.same_as(&a)));
    assert!(refs.iter().any(|r| r.same_as(&b)));
    // Marking again keeps the mark and adds no candidate.
    candidates.mark_exact(a.duplicate());
    assert!(candidates.is_exact(&a));
    assert_eq!(candidates.candidate_refs().len(), 2);
}

#[test]
fn dense_variants_list_only_candidates_with_variants() {
    let a = CognitiveRef::Memory(1);
    let b = CognitiveRef::Memory(2);
    let mut candidates = CandidateAccumulator::default();
    candidates.add_lexical(a.duplicate(), 3);
    candidates.add_dense(b.duplicate(), 1, "direct_dense");
    let variants = candidates.dense_variants();
    assert_eq!(variants.len(), 1);
    assert!(variants[0].0.same_as(&b));
    assert!(holds(&variants[0].1, "direct_dense"));
    assert_eq!(candidates.lexical_ranks().len(), 1);
    assert_eq!(candidates.dense_ranks().len(), 1);
}
