use nous_memory::authority::EpistemicClass;
use nous_memory::error::Error;
use nous_memory::exact::{exact_hit, AuthorityClass};
use nous_memory::families::EvidenceFamily;
use nous_memory::models::{
    check_extraction, ExtractionMaterial, ExtractionResult, MemoryKind, ModelEndpoint,
    ProposedMemory,
};
use nous_memory::refs::CognitiveRef;

fn endpoint(url: &str) -> ModelEndpoint {
    ModelEndpoint {
        enabled: true,
        endpoint: url.to_string(),
        model: "test-extractor".to_string(),
        revision: "1".to_string(),
        preprocessing: "identity".to_string(),
        timeout_seconds: 30,
        max_response_bytes: 1 << 20,
    }
}

#[test]
fn enabled_endpoints_must_be_complete_web_urls() {
    assert!(endpoint("https://models.example/v1/extract").validate().is_ok());
    assert!(endpoint("http://127.0.0.1:8080/embed").validate().is_ok());
    assert!(matches!(endpoint("ftp://models.example/x").validate(), Err(Error::Invalid(_))));
    assert!(matches!(endpoint("not a url").validate(), Err(Error::Invalid(_))));
    let mut blank = endpoint("https://models.example");
    blank.model = "  ".to_string();
    assert!(blank.validate().is_err());
    let mut no_timeout = endpoint("https://models.example");
    no_timeout.timeout_seconds = 0;
    assert!(no_timeout.validate().is_err());
    let mut no_budget = endpoint("https://models.example");
    no_budget.max_response_bytes = 0;
    assert!(no_budget.validate().is_err());
    let mut disabled = endpoint("not a url");
    disabled.enabled = false;
    assert!(disabled.validate().is_ok());
}

fn material() -> Vec<ExtractionMaterial> {
    vec![ExtractionMaterial {
        source_id: 1,
        artifact_id: 2,
        text: "Alice prefers Ethiopian coffee".to_string(),
        epistemic_class: EpistemicClass::Observed,
    }]
}

fn proposal(sources: Vec<u128>, artifacts: Vec<u128>) -> ProposedMemory {
    ProposedMemory {
        kind: MemoryKind::Semantic,
        title: "preference".to_string(),
        text: "Alice prefers Ethiopian coffee".to_string(),
        source_refs: sources,
        artifact_refs: artifacts,
        entities: vec!["entity:host-person:alice".to_string()],
    }
}

#[test]
fn extraction_results_stay_within_their_material() {
    let config = endpoint("https://models.example");
    let ok = ExtractionResult {
        model: "test-extractor".to_string(),
        revision: "1".to_string(),
        memories: vec![proposal(vec![1], vec![2])],
    };
    assert!(check_extraction(&ok, &config, &material()).is_ok());
    let foreign = ExtractionResult {
        model: "test-extractor".to_string(),
        revision: "1".to_string(),
        memories: vec![proposal(vec![9], vec![2])],
    };
    assert!(matches!(check_extraction(&foreign, &config, &material()), Err(Error::Invalid(_))));
    let uncited = ExtractionResult {
        model: "test-extractor".to_string(),
        revision: "1".to_string(),
        memories: vec![proposal(vec![1], vec![])],
    };
    assert!(check_extraction(&uncited, &config, &material()).is_err());
    let wrong_model = ExtractionResult {
        model: "other".to_string(),
        revision: "1".to_string(),
        memories: vec![],
    };
    assert!(check_extraction(&wrong_model, &config, &material()).is_err());
    let mut untitled = proposal(vec![1], vec![2]);
    untitled.title = String::new();
    let untitled = ExtractionResult { model: "test-extractor".to_string(), revision: "1".to_string(), memories: vec![untitled] };
    assert!(check_extraction(&untitled, &config, &material()).is_err());
}

#[test]
fn exact_hits_are_classified_by_target_kind() {
    let memory = CognitiveRef::Memory(3);
    let hit = exact_hit(&memory, true, true).expect("hit");
    assert!(hit.reference.same_as(&memory));
    assert_eq!(hit.authority, AuthorityClass::SubjectCognition);
    assert_eq!(hit.semantic_role, "memory");
    assert_eq!(hit.evidence.len(), 1);
    assert_eq!(hit.evidence[0].support_role, "exact");
    assert_eq!(hit.materialization.len(), 1);
    assert_eq!(hit.materialization[0].level, "memory_revision");

    let region = CognitiveRef::DerivedRegion(4);
    let hit = exact_hit(&region, false, false).expect("hit");
    assert_eq!(hit.authority, AuthorityClass::Interpretation);
    assert_eq!(hit.semantic_role, "derived_representation");
    assert!(hit.evidence.is_empty() && hit.materialization.is_empty());

    let resource = CognitiveRef::Resource("doc".to_string());
    let hit = exact_hit(&resource, false, true).expect("hit");
    assert_eq!(hit.authority, AuthorityClass::ResourceDescriptor);
    assert_eq!(hit.materialization[0].level, "resource");

    let tag = CognitiveRef::Tag(1);
    assert_eq!(exact_hit(&tag, false, true).expect("hit").materialization[0].level, "cognitive_ref");
    let artifact = CognitiveRef::Artifact(1);
    assert_eq!(exact_hit(&artifact, false, false).expect("hit").authority, AuthorityClass::Evidence);
    let session = CognitiveRef::Session(1);
    assert_eq!(exact_hit(&session, false, false).expect("hit").semantic_role, "session");

    let derived = CognitiveRef::DerivedRegion(7);
    let hit = exact_hit(&derived, true, false).expect("hit");
    assert_eq!(hit.authority, AuthorityClass::Interpretation);
    assert_eq!(hit.semantic_role, "derived_representation");
    assert_eq!(hit.evidence.len(), 1);
    assert!(hit.evidence[0].reference.same_as(&derived));
    assert_eq!(hit.evidence[0].support_role, "exact");
    assert!(hit.materialization.is_empty());
    assert_eq!(hit.families, vec![EvidenceFamily::Exact]);
    assert_eq!(hit.revision, None);
    assert!(hit.memory_class.is_none());
    assert!(hit.entity_refs.is_empty());
    assert_eq!(hit.representation, Some("derived_region:00000000-0000-0000-0000-000000000007".to_string()));
    assert_eq!(hit.explanation, "explicit exact target");
}
