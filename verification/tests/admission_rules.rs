use nous_memory::admission::memory_class_admitted;
use nous_memory::admission::{memory_times_admitted, MemoryTimes};
use nous_memory::admission::append_until_limit;
use nous_memory::admission::append_within_room;
use nous_memory::admission::{
    admits_candidate, authority_admits, memory_sources_admitted, remaining_slots,
    source_class_admitted, targets_allow_evidence, targets_allow_memory, targets_ask_for_resources,
    AdmissionConstraints, QueryTarget,
};
use nous_memory::exact::AuthorityClass;
use nous_memory::refs::CognitiveRef;

fn constraints(authority: Option<AuthorityClass>, included: &[&str], excluded: &[&str]) -> AdmissionConstraints {
    AdmissionConstraints {
        authority,
        source_classes_include: included.iter().map(|s| s.to_string()).collect(),
        source_classes_exclude: excluded.iter().map(|s| s.to_string()).collect(),
    }
}

#[test]
fn evidence_is_admitted_without_targets_or_when_asked_for() {
    assert!(targets_allow_evidence(&[]));
    assert!(targets_allow_evidence(&[QueryTarget::Memory, QueryTarget::Evidence]));
    assert!(targets_allow_evidence(&[QueryTarget::AnyRelevantCognition]));
    assert!(!targets_allow_evidence(&[QueryTarget::Memory, QueryTarget::Resource]));
}

#[test]
fn memories_are_admitted_for_memory_targets_and_exact_memories() {
    assert!(targets_allow_memory(&[]));
    assert!(targets_allow_memory(&[QueryTarget::AnchorNeighborhood { anchor: 3 }]));
    assert!(targets_allow_memory(&[QueryTarget::EntityNeighborhood { entity_ref: "person:ada".into() }]));
    assert!(targets_allow_memory(&[QueryTarget::Exact { reference: CognitiveRef::MemoryRevision(4) }]));
    assert!(!targets_allow_memory(&[QueryTarget::Exact { reference: CognitiveRef::Occurrence(4) }]));
    assert!(!targets_allow_memory(&[QueryTarget::Evidence, QueryTarget::Resource]));
}

#[test]
fn resources_only_when_named() {
    assert!(!targets_ask_for_resources(&[]));
    assert!(!targets_ask_for_resources(&[QueryTarget::AnyRelevantCognition]));
    assert!(targets_ask_for_resources(&[QueryTarget::Memory, QueryTarget::Resource]));
}

#[test]
fn authority_constraint_names_the_one_admitted_authority() {
    assert!(authority_admits(None, AuthorityClass::Evidence));
    assert!(authority_admits(Some(AuthorityClass::Evidence), AuthorityClass::Evidence));
    assert!(!authority_admits(Some(AuthorityClass::Interpretation), AuthorityClass::Evidence));
}

#[test]
fn source_classes_are_included_then_excluded() {
    let open = constraints(None, &[], &[]);
    assert!(source_class_admitted(&open, "chat"));
    let only_chat = constraints(None, &["chat"], &[]);
    assert!(source_class_admitted(&only_chat, "chat"));
    assert!(!source_class_admitted(&only_chat, "email"));
    let no_email = constraints(None, &[], &["email"]);
    assert!(source_class_admitted(&no_email, "chat"));
    assert!(!source_class_admitted(&no_email, "email"));
    let both = constraints(None, &["chat"], &["chat"]);
    assert!(!source_class_admitted(&both, "chat"));
}

#[test]
fn memory_sources_need_one_included_and_none_excluded() {
    let only_chat = constraints(None, &["chat"], &["email"]);
    let present = |xs: &[&str]| xs.iter().map(|s| s.to_string()).collect::<Vec<_>>();
    assert!(memory_sources_admitted(&only_chat, &present(&["note", "chat"])));
    assert!(!memory_sources_admitted(&only_chat, &present(&["note"])));
    assert!(!memory_sources_admitted(&only_chat, &present(&["chat", "email"])));
    assert!(!memory_sources_admitted(&only_chat, &present(&[])));
    assert!(memory_sources_admitted(&constraints(None, &[], &["email"]), &present(&[])));
}

#[test]
fn candidates_are_admitted_once_and_under_constraints() {
    let c = constraints(Some(AuthorityClass::Evidence), &[], &["email"]);
    let returned = vec![CognitiveRef::Occurrence(1)];
    assert!(!admits_candidate(&c, &returned, &CognitiveRef::Occurrence(1), AuthorityClass::Evidence, Some("chat")));
    assert!(admits_candidate(&c, &returned, &CognitiveRef::Occurrence(2), AuthorityClass::Evidence, Some("chat")));
    assert!(!admits_candidate(&c, &returned, &CognitiveRef::Occurrence(2), AuthorityClass::Evidence, Some("email")));
    assert!(!admits_candidate(&c, &returned, &CognitiveRef::DerivedRepresentation(2), AuthorityClass::Interpretation, None));
    let open = constraints(None, &[], &["email"]);
    assert!(admits_candidate(&open, &returned, &CognitiveRef::DerivedRepresentation(2), AuthorityClass::Interpretation, None));
}

#[test]
fn remaining_slots_saturate() {
    assert_eq!(remaining_slots(10, 3), 7);
    assert_eq!(remaining_slots(3, 3), 0);
    assert_eq!(remaining_slots(3, 5), 0);
}

#[test]
fn memory_classes_are_included_then_excluded() {
    let none: Vec<String> = vec![];
    let specific = vec!["specific".to_string()];
    assert!(memory_class_admitted(&none, &none, "general"));
    assert!(memory_class_admitted(&specific, &none, "specific"));
    assert!(!memory_class_admitted(&specific, &none, "general"));
    assert!(!memory_class_admitted(&none, &specific, "specific"));
}

fn at(seconds: i64) -> nous_memory::time::Timestamp {
    nous_memory::time::Timestamp { seconds, nanos: 0 }
}

fn span(start: i64, end: i64) -> nous_memory::time::TimeInterval {
    nous_memory::time::TimeInterval { start: Some(at(start)), end: Some(at(end)) }
}

#[test]
fn memory_times_meet_intervals_and_temporal_cues() {
    let times = MemoryTimes { occurred_at: Some(at(100)), observed_at: at(200), valid_from: None, valid_to: None };
    assert!(memory_times_admitted(None, None, &[], &times));
    assert!(memory_times_admitted(Some(span(50, 150)), None, &[], &times));
    assert!(!memory_times_admitted(Some(span(150, 250)), None, &[], &times));
    assert!(!memory_times_admitted(None, Some(span(0, 1000)), &[], &times));
    assert!(memory_times_admitted(None, None, &[span(0, 10), span(190, 210)], &times));
    assert!(!memory_times_admitted(None, None, &[span(0, 10), span(300, 400)], &times));
    let valid = MemoryTimes { occurred_at: None, observed_at: at(200), valid_from: Some(at(500)), valid_to: Some(at(600)) };
    assert!(memory_times_admitted(None, Some(span(550, 700)), &[span(590, 591)], &valid));
    assert!(!memory_times_admitted(Some(span(0, 1000)), None, &[], &valid));
}

fn kinds(refs: &[CognitiveRef]) -> Vec<String> {
    refs.iter().map(|r| format!("{}:{}", r.kind(), r.value())).collect()
}

#[test]
fn appending_until_the_limit_keeps_earlier_results_and_skips_repeats() {
    let mut returned = vec![CognitiveRef::Memory(1)];
    let candidates = vec![
        CognitiveRef::Occurrence(2),
        CognitiveRef::Memory(1),
        CognitiveRef::Occurrence(3),
        CognitiveRef::Occurrence(2),
        CognitiveRef::Occurrence(4),
        CognitiveRef::Occurrence(5),
    ];
    append_until_limit(&mut returned, &candidates, &[true, true, false, true, true, true], 3);
    assert_eq!(
        kinds(&returned),
        vec![
            "memory:00000000-0000-0000-0000-000000000001".to_string(),
            "occurrence:00000000-0000-0000-0000-000000000002".to_string(),
            "occurrence:00000000-0000-0000-0000-000000000004".to_string(),
        ]
    );
    let mut full = vec![CognitiveRef::Memory(1)];
    append_until_limit(&mut full, &candidates, &[true; 6], 1);
    assert_eq!(full.len(), 1);
}

#[test]
fn appending_within_room_counts_passed_over_candidates() {
    let mut returned = vec![CognitiveRef::Memory(1)];
    let candidates = vec![
        CognitiveRef::DerivedRepresentation(2),
        CognitiveRef::DerivedRepresentation(3),
        CognitiveRef::DerivedRepresentation(4),
    ];
    append_within_room(&mut returned, &candidates, &[false, true, true], 3);
    assert_eq!(
        kinds(&returned),
        vec![
            "memory:00000000-0000-0000-0000-000000000001".to_string(),
            "derived_representation:00000000-0000-0000-0000-000000000003".to_string(),
        ]
    );
    let mut over = vec![CognitiveRef::Memory(1), CognitiveRef::Memory(2)];
    append_within_room(&mut over, &candidates, &[true, true, true], 1);
    assert_eq!(over.len(), 2);
}
