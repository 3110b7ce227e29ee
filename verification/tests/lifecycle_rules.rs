use nous_memory::lifecycle::payload_uuid;
use nous_memory::error::Error;
use nous_memory::lifecycle::{
    check_anchor_support, check_anchor_supports, check_binding, check_cycle_budget,
    check_feedback, check_inspection, check_list_limit, check_new_subject_seed,
    check_processing_limit, check_recall_bounds, check_seed, check_subject_label,
    classify_failure, cycle_outcome, disposition, ObligationOutcome, ProcessingResult,
    SeedContent, SeedInput, UseKind,
};
use nous_memory::lifecycle::{
    anchor_support_root, check_anchor_description, check_tag_label, co_use_evidence_class,
    co_use_pairs, meaningful_use_reference,
};
use nous_memory::lifecycle::{obligation_kinds, parse_obligation_kind, ObligationKind, ProcessingRun};
use nous_memory::refs::CognitiveRef;

#[test]
fn cycle_outcomes() {
    assert_eq!(cycle_outcome("resolved").ok(), Some(UseKind::CycleResolved));
    assert_eq!(cycle_outcome("insufficient").ok(), Some(UseKind::CycleInsufficient));
    assert_eq!(cycle_outcome("abandoned").ok(), Some(UseKind::Abandoned));
    assert!(matches!(cycle_outcome("done"), Err(Error::Invalid(_))));
}

#[test]
fn host_feedback_kinds_and_budget() {
    assert!(check_feedback(UseKind::Followed, 64).is_ok());
    assert!(check_feedback(UseKind::ExposedToContext, 0).is_ok());
    assert!(matches!(check_feedback(UseKind::Followed, 65), Err(Error::Invalid(_))));
    assert!(matches!(check_feedback(UseKind::Surfaced, 1), Err(Error::Invalid(_))));
    assert!(matches!(check_feedback(UseKind::CycleResolved, 1), Err(Error::Invalid(_))));
}

#[test]
fn cycle_and_page_budgets() {
    assert!(check_cycle_budget(999, 63).is_ok());
    assert!(matches!(check_cycle_budget(1000, 0), Err(Error::Unavailable(_))));
    assert!(matches!(check_cycle_budget(0, 64), Err(Error::Unavailable(_))));
    assert!(check_inspection(64).is_ok());
    assert!(check_inspection(65).is_err());
    assert!(check_processing_limit(1).is_ok());
    assert!(check_processing_limit(1000).is_ok());
    assert!(check_processing_limit(0).is_err());
    assert!(check_processing_limit(1001).is_err());
    assert!(check_list_limit(1000).is_ok());
    assert!(check_list_limit(0).is_err());
}

#[test]
fn transient_failures_stop_the_batch_and_stay_pending() {
    assert_eq!(classify_failure(&Error::Unavailable("down".to_string())), ObligationOutcome::DependencyUnavailable);
    assert_eq!(classify_failure(&Error::Infrastructure("io".to_string())), ObligationOutcome::DependencyUnavailable);
    assert_eq!(classify_failure(&Error::Conflict("changed".to_string())), ObligationOutcome::RevisionChanged);
    assert_eq!(classify_failure(&Error::Invalid("bad".to_string())), ObligationOutcome::InvalidMaterial);
    assert_eq!(classify_failure(&Error::NotFound("gone".to_string())), ObligationOutcome::InvalidMaterial);
    let d = disposition(ObligationOutcome::DependencyUnavailable);
    assert_eq!((d.state, d.problem_code, d.stop_batch), ("pending", "dependency_unavailable", true));
    let d = disposition(ObligationOutcome::RevisionChanged);
    assert_eq!((d.state, d.problem_code, d.stop_batch), ("pending", "revision_changed", true));
    let d = disposition(ObligationOutcome::InvalidMaterial);
    assert_eq!((d.state, d.problem_code, d.stop_batch), ("failed", "invalid_material", false));
    let d = disposition(ObligationOutcome::Succeeded);
    assert_eq!((d.state, d.stop_batch), ("succeeded", false));
    let counts = ProcessingResult { succeeded: 2, failed: 1, pending: 3 };
    assert_eq!(counts.succeeded + counts.failed, 3);
}

#[test]
fn entity_binding_states() {
    assert!(check_binding("bound", true).is_ok());
    assert!(check_binding("unbound", false).is_ok());
    assert!(check_binding("disputed", false).is_ok());
    assert!(matches!(check_binding("bound", false), Err(Error::Invalid(_))));
    assert!(matches!(check_binding("unbound", true), Err(Error::Invalid(_))));
    assert!(matches!(check_binding("maybe", false), Err(Error::Invalid(_))));
}

#[test]
fn consolidation_anchors_need_two_roots() {
    let a = Some("memory:a".to_string());
    let b = Some("memory:b".to_string());
    assert!(check_anchor_support("consolidation", false, &[a.clone(), b.clone()]).is_ok());
    assert!(matches!(
        check_anchor_support("consolidation", false, &[a.clone(), None, a.clone()]),
        Err(Error::Invalid(_))
    ));
    assert!(check_anchor_support("consolidation", false, &[None, a.clone(), None, b]).is_ok());
    assert!(check_anchor_support("consolidation", false, &[]).is_err());
    assert!(check_anchor_support("consolidation", true, &[]).is_ok());
    assert!(check_anchor_support("host", false, &[a]).is_ok());
}

#[test]
fn consolidation_anchor_roots_come_from_references() {
    let one = CognitiveRef::Memory(1);
    let same = CognitiveRef::Memory(1);
    let other_kind = CognitiveRef::MemoryRevision(1);
    assert!(check_anchor_supports("consolidation", false, &[one.duplicate(), same]).is_err());
    assert!(check_anchor_supports("consolidation", false, &[one.duplicate(), other_kind]).is_ok());
    assert!(check_anchor_supports("consolidation", true, &[one.duplicate()]).is_ok());
}

#[test]
fn subject_labels_are_bounded() {
    assert!(check_subject_label(&None).is_ok());
    assert!(check_subject_label(&Some("a".repeat(1024))).is_ok());
    assert!(matches!(check_subject_label(&Some("a".repeat(1025))), Err(Error::Invalid(_))));
    assert!(check_subject_label(&Some("é".repeat(513))).is_err());
}

fn inline(content: &str, media_type: &str) -> SeedInput {
    SeedInput {
        content: SeedContent::Inline { content: content.to_string(), media_type: media_type.to_string() },
        authored_by: "test:author".to_string(),
    }
}

#[test]
fn character_seeds() {
    assert!(check_seed(&inline("# Character\nCurious, careful subject.", "text/markdown"), 10).is_ok());
    assert!(check_seed(&inline("Portable seed", "text/plain"), 10).is_ok());
    assert!(matches!(check_seed(&inline("  \n", "text/plain"), 10), Err(Error::Invalid(_))));
    assert!(check_seed(&inline("text", "application/pdf"), 10).is_err());
    let mut blank_author = inline("text", "text/plain");
    blank_author.authored_by = " ".to_string();
    assert!(check_seed(&blank_author, 10).is_err());
    let bytes = |bytes: Vec<u8>, media: &str| SeedInput {
        content: SeedContent::InlineBytes { bytes, media_type: media.to_string() },
        authored_by: "test:author".to_string(),
    };
    assert!(check_seed(&bytes(vec![1, 2, 3], "application/octet-stream"), 3).is_ok());
    assert!(check_seed(&bytes(vec![1, 2, 3], "application/octet-stream"), 2).is_err());
    assert!(check_seed(&bytes(vec![], "application/octet-stream"), 2).is_err());
    assert!(check_seed(&bytes(vec![1], ""), 2).is_err());
    let artifact = SeedInput { content: SeedContent::Artifact { artifact_id: 5 }, authored_by: "a".to_string() };
    assert!(check_seed(&artifact, 1).is_ok());
    assert!(matches!(check_new_subject_seed(&artifact), Err(Error::Invalid(_))));
    assert!(check_new_subject_seed(&inline("x", "text/plain")).is_ok());
}

#[test]
fn recall_intent_bounds() {
    assert!(check_recall_bounds(400, 64, 64, 64, Some(65536)).is_ok());
    assert!(check_recall_bounds(1, 0, 0, 0, None).is_ok());
    assert!(matches!(check_recall_bounds(0, 0, 0, 0, None), Err(Error::Invalid(_))));
    assert!(check_recall_bounds(401, 0, 0, 0, None).is_err());
    assert!(check_recall_bounds(10, 65, 0, 0, None).is_err());
    assert!(check_recall_bounds(10, 0, 65, 0, None).is_err());
    assert!(check_recall_bounds(10, 0, 0, 65, None).is_err());
    assert!(check_recall_bounds(10, 0, 0, 0, Some(65537)).is_err());
}

#[test]
fn co_use_pairs_follow_the_source_or_neighbours() {
    assert_eq!(co_use_pairs(&[1, 2, 1, 3], Some(1)), vec![(1, 2), (1, 3)]);
    assert_eq!(co_use_pairs(&[1, 1, 2, 3, 3], None), vec![(1, 2), (2, 3)]);
    assert!(co_use_pairs(&[4], None).is_empty());
    assert!(co_use_pairs(&[], None).is_empty());
    assert!(co_use_pairs(&[], Some(1)).is_empty());
    assert_eq!(co_use_evidence_class(UseKind::Followed), "followed");
    assert_eq!(co_use_evidence_class(UseKind::ReferencedOrActedOn), "meaningful_co_recall");
}

#[test]
fn topology_requests() {
    assert!(check_tag_label("coffee").is_ok());
    assert!(matches!(check_tag_label(" \t"), Err(Error::Invalid(_))));
    assert!(check_anchor_description("why").is_ok());
    assert!(check_anchor_description("").is_err());
    assert_eq!(meaningful_use_reference(Some(5), Some(6)).ok(), Some(("memory_revision", 5)));
    assert_eq!(meaningful_use_reference(None, Some(6)).ok(), Some(("occurrence", 6)));
    assert!(matches!(meaningful_use_reference(None, None), Err(Error::Invalid(_))));
    assert_eq!(
        anchor_support_root(&CognitiveRef::Memory(1), None),
        Some("memory:00000000-0000-0000-0000-000000000001".to_string())
    );
    assert_eq!(
        anchor_support_root(&CognitiveRef::MemoryRevision(9), Some(1)),
        Some("memory:00000000-0000-0000-0000-000000000001".to_string())
    );
    assert_eq!(anchor_support_root(&CognitiveRef::MemoryRevision(9), None), None);
    assert_eq!(
        anchor_support_root(&CognitiveRef::Occurrence(0xff), None),
        Some("occurrence:00000000-0000-0000-0000-0000000000ff".to_string())
    );
    assert_eq!(anchor_support_root(&CognitiveRef::Tag(1), None), None);
}

#[test]
fn processing_runs_stop_at_the_first_pending_failure() {
    assert_eq!(obligation_kinds(false, false), vec!["ingest", "regenerate"]);
    assert_eq!(obligation_kinds(true, true), vec!["ingest", "regenerate", "embedding", "projection"]);
    assert_eq!(obligation_kinds(false, true), vec!["ingest", "regenerate", "projection"]);
    assert_eq!(parse_obligation_kind("embedding").ok(), Some(ObligationKind::Embedding));
    assert!(matches!(parse_obligation_kind("other"), Err(Error::Invalid(_))));
    assert!(ProcessingRun::new(0).is_err());
    assert!(ProcessingRun::new(1001).is_err());
    let mut run = ProcessingRun::new(5).expect("valid limit");
    assert!(run.may_claim());
    run.record(ObligationOutcome::Succeeded);
    let d = run.record(ObligationOutcome::InvalidMaterial);
    assert_eq!(d.state, "failed");
    assert!(run.may_claim());
    let d = run.record(ObligationOutcome::DependencyUnavailable);
    assert!(d.stop_batch);
    assert!(!run.may_claim());
    let counts = run.result(7);
    assert_eq!((counts.succeeded, counts.failed, counts.pending), (1, 2, 7));
    let mut short = ProcessingRun::new(1).expect("valid limit");
    short.record(ObligationOutcome::Succeeded);
    assert!(!short.may_claim());
}

#[test]
fn payload_identifiers_are_read_from_their_text() {
    assert_eq!(payload_uuid(Some("00000000-0000-0000-0000-000000000007"), "memory_id").ok(), Some(7));
    assert_eq!(
        payload_uuid(Some("0123456789ABCDEF0123456789abcdef"), "memory_id").ok(),
        Some(0x0123456789abcdef0123456789abcdef)
    );
    assert!(matches!(
        payload_uuid(Some("not an identifier"), "memory_id"),
        Err(Error::Invalid(m)) if m == "missing memory_id"
    ));
    assert!(matches!(payload_uuid(Some(""), "artifact_id"), Err(Error::Invalid(m)) if m == "missing artifact_id"));
    assert!(matches!(payload_uuid(None, "occurrence_id"), Err(Error::Invalid(m)) if m == "missing occurrence_id"));
}
