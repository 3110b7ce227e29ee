//! Vocabulary of wave seeds, graph node kinds and semantic trails.
use vstd::prelude::*;
use crate::refs::{CognitiveRef, RefView};

verus! {

/// The family of evidence a wave seed was derived from.
#[derive(Debug, Clone, Copy, PartialEq, Eq, Structural)]
pub enum SeedFamily {
    Explicit,
    Exact,
    Entity,
    Tag,
    Anchor,
    Resource,
    Runtime,
    Relation,
    Residual,
}

/// The cue that originated a wave seed.
#[derive(Debug, Clone, Copy, PartialEq, Eq, Structural)]
pub enum SeedOrigin {
    ExplicitQuery,
    ExactTarget,
    EntityCue,
    TagCue,
    AnchorCue,
    ResourceCue,
    RuntimeSituation,
    RelationCue,
    ResidualDiscovery,
}

/// Wire name of a seed family.
pub open spec fn family_name(family: SeedFamily) -> Seq<char> {
    match family {
        SeedFamily::Explicit => "explicit_query"@,
        SeedFamily::Exact => "exact_target"@,
        SeedFamily::Entity => "entity_cue"@,
        SeedFamily::Tag => "tag_cue"@,
        SeedFamily::Anchor => "anchor_cue"@,
        SeedFamily::Resource => "resource_cue"@,
        SeedFamily::Runtime => "runtime_situation"@,
        SeedFamily::Relation => "relation_cue"@,
        SeedFamily::Residual => "residual_discovery"@,
    }
}

/// Wire name of a seed origin.
pub open spec fn origin_name(origin: SeedOrigin) -> Seq<char> {
    match origin {
        SeedOrigin::ExplicitQuery => "explicit_query"@,
        SeedOrigin::ExactTarget => "exact_target"@,
        SeedOrigin::EntityCue => "entity_cue"@,
        SeedOrigin::TagCue => "tag_cue"@,
        SeedOrigin::AnchorCue => "anchor_cue"@,
        SeedOrigin::ResourceCue => "resource_cue"@,
        SeedOrigin::RuntimeSituation => "runtime_situation"@,
        SeedOrigin::RelationCue => "relation_cue"@,
        SeedOrigin::ResidualDiscovery => "residual_discovery"@,
    }
}

/// The origin cue that corresponds to each seed family.
pub open spec fn origin_of_family(family: SeedFamily) -> SeedOrigin {
    match family {
        SeedFamily::Explicit => SeedOrigin::ExplicitQuery,
        SeedFamily::Exact => SeedOrigin::ExactTarget,
        SeedFamily::Entity => SeedOrigin::EntityCue,
        SeedFamily::Tag => SeedOrigin::TagCue,
        SeedFamily::Anchor => SeedOrigin::AnchorCue,
        SeedFamily::Resource => SeedOrigin::ResourceCue,
        SeedFamily::Runtime => SeedOrigin::RuntimeSituation,
        SeedFamily::Relation => SeedOrigin::RelationCue,
        SeedFamily::Residual => SeedOrigin::ResidualDiscovery,
    }
}

impl SeedFamily {
    /// The stable wire name of this family.
    pub fn as_str(self) -> (name: &'static str)
        ensures
            name@ == family_name(self),
    {
        match self {
            SeedFamily::Explicit => "explicit_query",
            SeedFamily::Exact => "exact_target",
            SeedFamily::Entity => "entity_cue",
            SeedFamily::Tag => "tag_cue",
            SeedFamily::Anchor => "anchor_cue",
            SeedFamily::Resource => "resource_cue",
            SeedFamily::Runtime => "runtime_situation",
            SeedFamily::Relation => "relation_cue",
            SeedFamily::Residual => "residual_discovery",
        }
    }
}

impl SeedOrigin {
    /// The stable wire name of this origin.
    pub fn as_str(&self) -> (name: &'static str)
        ensures
            name@ == origin_name(*self),
    {
        match self {
            SeedOrigin::ExplicitQuery => "explicit_query",
            SeedOrigin::ExactTarget => "exact_target",
            SeedOrigin::EntityCue => "entity_cue",
            SeedOrigin::TagCue => "tag_cue",
            SeedOrigin::AnchorCue => "anchor_cue",
            SeedOrigin::ResourceCue => "resource_cue",
            SeedOrigin::RuntimeSituation => "runtime_situation",
            SeedOrigin::RelationCue => "relation_cue",
            SeedOrigin::ResidualDiscovery => "residual_discovery",
        }
    }
}

/// Every seed family is named exactly like the origin cue that corresponds to it,
/// so a seed's family label and its default origin label never disagree.
pub proof fn family_and_origin_names_agree(family: SeedFamily)
    ensures
        family_name(family) == origin_name(origin_of_family(family)),
{
}

/// Length, first and third character of a wire name: enough to tell the
/// names of this vocabulary apart.
pub open spec fn name_key(name: Seq<char>) -> (nat, char, char) {
    (name.len(), name[0], name[2])
}

proof fn family_key(family: SeedFamily)
    ensures
        name_key(family_name(family)) == name_key(origin_name(origin_of_family(family))),
        name_key(family_name(family)) == match family {
            SeedFamily::Explicit => (14nat, 'e', 'p'),
            SeedFamily::Exact => (12nat, 'e', 'a'),
            SeedFamily::Entity => (10nat, 'e', 't'),
            SeedFamily::Tag => (7nat, 't', 'g'),
            SeedFamily::Anchor => (10nat, 'a', 'c'),
            SeedFamily::Resource => (12nat, 'r', 's'),
            SeedFamily::Runtime => (17nat, 'r', 'n'),
            SeedFamily::Relation => (12nat, 'r', 'l'),
            SeedFamily::Residual => (18nat, 'r', 's'),
        },
{
    match family {
        SeedFamily::Explicit => { reveal_strlit("explicit_query"); },
        SeedFamily::Exact => { reveal_strlit("exact_target"); },
        SeedFamily::Entity => { reveal_strlit("entity_cue"); },
        SeedFamily::Tag => { reveal_strlit("tag_cue"); },
        SeedFamily::Anchor => { reveal_strlit("anchor_cue"); },
        SeedFamily::Resource => { reveal_strlit("resource_cue"); },
        SeedFamily::Runtime => { reveal_strlit("runtime_situation"); },
        SeedFamily::Relation => { reveal_strlit("relation_cue"); },
        SeedFamily::Residual => { reveal_strlit("residual_discovery"); },
    }
}

/// Distinct seed families carry distinct wire names.
pub proof fn family_names_are_distinct(a: SeedFamily, b: SeedFamily)
    requires
        a != b,
    ensures
        family_name(a) != family_name(b),
{
    family_key(a);
    family_key(b);
}

/// Distinct seed origins carry distinct wire names.
pub proof fn origin_names_are_distinct(a: SeedOrigin, b: SeedOrigin)
    requires
        a != b,
    ensures
        origin_name(a) != origin_name(b),
{
    let fa = family_of_origin(a);
    let fb = family_of_origin(b);
    family_key(fa);
    family_key(fb);
}

/// The seed family whose default origin is `origin`.
pub open spec fn family_of_origin(origin: SeedOrigin) -> SeedFamily {
    match origin {
        SeedOrigin::ExplicitQuery => SeedFamily::Explicit,
        SeedOrigin::ExactTarget => SeedFamily::Exact,
        SeedOrigin::EntityCue => SeedFamily::Entity,
        SeedOrigin::TagCue => SeedFamily::Tag,
        SeedOrigin::AnchorCue => SeedFamily::Anchor,
        SeedOrigin::ResourceCue => SeedFamily::Resource,
        SeedOrigin::RuntimeSituation => SeedFamily::Runtime,
        SeedOrigin::RelationCue => SeedFamily::Relation,
        SeedOrigin::ResidualDiscovery => SeedFamily::Residual,
    }
}

/// The kind of node a wave graph holds.
#[derive(Debug, Clone, Copy, PartialEq, Eq, Structural)]
pub enum WaveNodeKind {
    Memory,
    Tag,
    Anchor,
    Entity,
    Resource,
}

/// Whether the nodes of a candidate's semantic trail carry a declared order.
#[derive(Debug, Clone, Copy, PartialEq, Eq, Structural)]
pub enum TrailOrder {
    Ordered,
    Unordered,
    Unavailable,
}

/// The topology nodes a candidate memory touches, with their declared order.
pub struct CandidateSemanticTrail {
    pub memory: CognitiveRef,
    pub nodes: Vec<u32>,
    pub order: TrailOrder,
    pub provenance: Option<String>,
}

/// Default semantic cue sensing: EPA basis support plus bounded residual search.
#[derive(Debug, Default, Clone, Copy)]
pub struct EpaResidualCueSensing;

/// Default bounded associative expansion.
#[derive(Debug, Default, Clone, Copy)]
pub struct BoundedWaveExpansion;

} // verus!
