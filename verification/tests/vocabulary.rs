use nous_memory::recall_budget::{RecallBudget, RecallEffort};
use nous_memory::seeds::{
    BoundedWaveExpansion, CandidateSemanticTrail, EpaResidualCueSensing, SeedFamily, SeedOrigin,
    TrailOrder, WaveNodeKind,
};
use nous_memory::error::Error;

const FAMILIES: [SeedFamily; 9] = [
    SeedFamily::Explicit,
    SeedFamily::Exact,
    SeedFamily::Entity,
    SeedFamily::Tag,
    SeedFamily::Anchor,
    SeedFamily::Resource,
    SeedFamily::Runtime,
    SeedFamily::Relation,
    SeedFamily::Residual,
];

const ORIGINS: [SeedOrigin; 9] = [
    SeedOrigin::ExplicitQuery,
    SeedOrigin::ExactTarget,
    SeedOrigin::EntityCue,
    SeedOrigin::TagCue,
    SeedOrigin::AnchorCue,
    SeedOrigin::ResourceCue,
    SeedOrigin::RuntimeSituation,
    SeedOrigin::RelationCue,
    SeedOrigin::ResidualDiscovery,
];

#[test]
fn seed_names_are_stable_and_paired() {
    assert_eq!(SeedFamily::Explicit.as_str(), "explicit_query");
    assert_eq!(SeedFamily::Residual.as_str(), "residual_discovery");
    assert_eq!(SeedOrigin::RuntimeSituation.as_str(), "runtime_situation");
    for (family, origin) in FAMILIES.iter().zip(ORIGINS.iter()) {
        assert_eq!(family.as_str(), origin.as_str());
    }
    for (i, a) in FAMILIES.iter().enumerate() {
        for (j, b) in FAMILIES.iter().enumerate() {
            assert_eq!(i == j, a.as_str() == b.as_str());
        }
    }
}

#[test]
fn built_in_budgets() {
    let light = RecallBudget::for_effort(RecallEffort::Light);
    assert_eq!((light.max_candidates, light.max_association_states, light.max_association_edges), (24, 64, 256));
    let maximum = RecallBudget::for_effort(RecallEffort::Maximum);
    assert_eq!((maximum.max_candidates, maximum.max_association_states, maximum.max_association_edges), (400, 5000, 40000));
    let mut previous = 0;
    for effort in [RecallEffort::Light, RecallEffort::Normal, RecallEffort::Deep, RecallEffort::Maximum] {
        let budget = RecallBudget::for_effort(effort);
        assert!(budget.validate().is_ok());
        assert!(budget.max_candidates >= previous);
        previous = budget.max_candidates;
    }
    let too_big = RecallBudget { max_candidates: 401, max_association_states: 1, max_association_edges: 1 };
    assert!(matches!(too_big.validate(), Err(Error::Invalid(_))));
    let zero = RecallBudget { max_candidates: 1, max_association_states: 0, max_association_edges: 1 };
    assert!(zero.validate().is_err());
}

#[test]
fn vocabulary_types_are_plain_values() {
    assert_ne!(WaveNodeKind::Tag, WaveNodeKind::Memory);
    assert_ne!(TrailOrder::Unordered, TrailOrder::Ordered);
    let _ = EpaResidualCueSensing;
    let _ = BoundedWaveExpansion;
    let _: Option<CandidateSemanticTrail> = None;
}
