use nous_memory::error::Error;
use nous_memory::exact::{project_exact_targets, AuthorityClass};
use nous_memory::refs::CognitiveRef;

fn refs_of(hits: &[nous_memory::exact::ExactHit]) -> Vec<String> {
    hits.iter().map(|h| format!("{}:{}", h.reference.kind(), h.reference.value())).collect()
}

#[test]
fn exact_targets_are_reported_in_order_but_memories_are_left_to_ranking() {
    let targets = vec![CognitiveRef::Memory(1), CognitiveRef::Occurrence(2), CognitiveRef::MemoryRevision(3)];
    let hits = project_exact_targets(&targets, &[true, true, true], &[true, true, true], false, None, 10, true, false)
        .ok()
        .unwrap();
    assert_eq!(
        refs_of(&hits),
        vec![
            "occurrence:00000000-0000-0000-0000-000000000002".to_string(),
            "memory_revision:00000000-0000-0000-0000-000000000003".to_string()
        ]
    );
    assert_eq!(hits[0].evidence.len(), 1);
    assert!(hits[0].materialization.is_empty());
    assert_eq!(hits[1].authority, AuthorityClass::SubjectCognition);
}

#[test]
fn inactive_revisions_need_suppressed_memories_included() {
    let targets = vec![CognitiveRef::MemoryRevision(3)];
    let hidden = project_exact_targets(&targets, &[true], &[false], false, None, 10, false, false).ok().unwrap();
    assert!(hidden.is_empty());
    let shown = project_exact_targets(&targets, &[true], &[false], true, None, 10, false, false).ok().unwrap();
    assert_eq!(shown.len(), 1);
}

#[test]
fn authority_constraint_filters_exact_targets() {
    let targets = vec![CognitiveRef::Occurrence(2), CognitiveRef::DerivedRegion(4)];
    let hits = project_exact_targets(
        &targets,
        &[true, true],
        &[true, true],
        false,
        Some(AuthorityClass::Interpretation),
        10,
        false,
        false,
    )
    .ok()
    .unwrap();
    assert_eq!(refs_of(&hits), vec!["derived_region:00000000-0000-0000-0000-000000000004".to_string()]);
}

#[test]
fn targets_outside_the_subject_refuse_the_query_until_the_limit_is_met() {
    let targets = vec![CognitiveRef::Occurrence(2), CognitiveRef::Occurrence(5)];
    assert!(matches!(
        project_exact_targets(&targets, &[true, false], &[true, true], false, None, 10, false, false),
        Err(Error::Invalid(_))
    ));
    let hits = project_exact_targets(&targets, &[true, false], &[true, true], false, None, 1, false, false)
        .ok()
        .unwrap();
    assert_eq!(hits.len(), 1);
}

#[test]
fn a_zero_limit_still_reports_the_first_exact_target() {
    let targets = vec![CognitiveRef::Occurrence(2), CognitiveRef::Occurrence(5)];
    let hits = project_exact_targets(&targets, &[true, true], &[true, true], false, None, 0, false, false)
        .ok()
        .unwrap();
    assert_eq!(hits.len(), 1);
}
