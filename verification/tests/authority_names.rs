use nous_memory::authority::{
    check_version, memory_default, parse_epistemic, parse_memory_class, parse_memory_status,
    parse_revision_lifecycle, parse_support, EpistemicClass, MemoryClass, MemoryStatus,
    RevisionLifecycle, SupportRole, API_VERSION,
};
use nous_memory::error::Error;

#[test]
fn stored_names_decode() {
    assert_eq!(parse_memory_class("specific").ok(), Some(MemoryClass::Specific));
    assert_eq!(parse_memory_class("integrative").ok(), Some(MemoryClass::Integrative));
    assert_eq!(parse_memory_class("procedural").ok(), Some(MemoryClass::Procedural));
    assert_eq!(parse_memory_status("active").ok(), Some(MemoryStatus::Active));
    assert_eq!(parse_memory_status("suppressed").ok(), Some(MemoryStatus::Suppressed));
    assert_eq!(parse_memory_status("purging").ok(), Some(MemoryStatus::Purging));
    assert_eq!(parse_revision_lifecycle("current").ok(), Some(RevisionLifecycle::Current));
    assert_eq!(parse_revision_lifecycle("superseded").ok(), Some(RevisionLifecycle::Superseded));
    assert_eq!(parse_revision_lifecycle("revoked").ok(), Some(RevisionLifecycle::Revoked));
    assert_eq!(parse_epistemic("observed").ok(), Some(EpistemicClass::Observed));
    assert_eq!(parse_epistemic("simulated").ok(), Some(EpistemicClass::Simulated));
    assert_eq!(parse_support("direct").ok(), Some(SupportRole::Direct));
    assert_eq!(parse_support("contextual").ok(), Some(SupportRole::Contextual));
}

#[test]
fn unknown_stored_names_are_inconsistencies() {
    assert!(matches!(parse_memory_class("Specific"), Err(Error::Infrastructure(_))));
    assert!(matches!(parse_memory_status(""), Err(Error::Infrastructure(_))));
    assert!(matches!(parse_revision_lifecycle("old"), Err(Error::Infrastructure(_))));
    assert!(matches!(parse_epistemic("guessed"), Err(Error::Infrastructure(_))));
    assert!(matches!(parse_support("direct "), Err(Error::Infrastructure(_))));
}

#[test]
fn support_roles_round_trip_through_their_names() {
    for role in [
        SupportRole::Direct,
        SupportRole::Corroborating,
        SupportRole::Interpretation,
        SupportRole::Contradiction,
        SupportRole::Contextual,
    ] {
        assert_eq!(parse_support(role.storage_name()).ok(), Some(role));
    }
    assert_eq!(SupportRole::Corroborating.storage_name(), "corroborating");
}

#[test]
fn version_and_defaults() {
    assert_eq!(API_VERSION, 1);
    assert!(check_version(1).is_ok());
    assert!(matches!(check_version(2), Err(Error::Invalid(_))));
    assert!(memory_default());
}

#[test]
fn tags_default_to_explicit_origin() {
    assert_eq!(nous_memory::authority::default_explicit_origin(), "explicit");
}
