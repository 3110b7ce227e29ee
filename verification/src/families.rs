//! The evidence families a memory candidate of a query is credited with, from what
//! the retrieval lanes reported about it.
use vstd::prelude::*;
use crate::candidates::{CandidateAccumulator, LaneView, lane_of, string_set, spec_add_dense};
use crate::refs::{CognitiveRef, RefView};
use crate::text::str_eq;
use crate::posting_lane::{has_prefix, spec_posting_lane};
use crate::candidates::spec_add_posting;

verus! {

/// The families of evidence that can support a candidate.
#[derive(Debug, Clone, Copy, PartialEq, Eq, Structural)]
pub enum EvidenceFamily {
    Exact,
    Runtime,
    Entity,
    Lexical,
    SemanticDense,
    TagDirect,
    AnchorDirect,
    Temporal,
    WaveField,
    Resource,
    LanguageRerank,
}

/// The families a memory candidate is credited with before topology is observed,
/// each with its rank; a family the candidate lacks has none.
#[derive(Debug, Clone, Copy, PartialEq, Eq, Structural)]
pub struct FamilyRanks {
    pub exact: Option<usize>,
    pub runtime: Option<usize>,
    pub lexical: Option<usize>,
    pub semantic_dense: Option<usize>,
    pub entity: Option<usize>,
    pub temporal: Option<usize>,
    pub tag_direct: Option<usize>,
    pub anchor_direct: Option<usize>,
}

/// A family held at rank one when `held`.
pub open spec fn rank_one_if(held: bool) -> Option<usize> {
    if held {
        Some(1)
    } else {
        None
    }
}

/// The families of memory `memory` at revision `revision`, given what the lanes
/// recorded in `lanes`: exact when either was marked exact or is an exact target,
/// runtime when resident in the session, lexical and semantic-dense at the ranks
/// those lanes reported, entity, tag and anchor when the matching posting lane hit
/// the memory, and temporal when the query is temporal.
pub open spec fn spec_family_ranks(
    lanes: Map<RefView, LaneView>,
    memory: u128,
    revision: u128,
    exact_target: bool,
    resident: bool,
    temporal_query: bool,
) -> FamilyRanks {
    let m = lane_of(lanes, RefView::Memory(memory));
    let exact = (lanes.contains_key(RefView::Memory(memory)) && m.exact) || (lanes.contains_key(
        RefView::MemoryRevision(revision),
    ) && lanes[RefView::MemoryRevision(revision)].exact) || exact_target;
    FamilyRanks {
        exact: rank_one_if(exact),
        runtime: rank_one_if(resident),
        lexical: m.lexical,
        semantic_dense: m.dense,
        entity: rank_one_if(lanes.contains_key(RefView::Memory(memory)) && m.postings.contains("entity_posting"@)),
        temporal: rank_one_if(temporal_query),
        tag_direct: rank_one_if(lanes.contains_key(RefView::Memory(memory)) && m.postings.contains("tag_posting"@)),
        anchor_direct: rank_one_if(lanes.contains_key(RefView::Memory(memory)) && m.postings.contains(
            "anchor_posting"@,
        )),
    }
}

/// Whether `list` holds `name`.
fn holds_name(list: &Vec<String>, name: &str) -> (found: bool)
    ensures
        found == string_set(list@).contains(name@),
{
    let mut i: usize = 0;
    while i < list.len()
        invariant
            i <= list@.len(),
            forall|j: int| 0 <= j < i ==> #[trigger] list@[j]@ != name@,
        decreases list@.len() - i,
    {
        if str_eq(list[i].as_str(), name) {
            proof {
                let views = list@.map_values(|s: String| s@);
                assert(views[i as int] == name@);
                assert(views.contains(name@));
            }
            return true;
        }
        i = i + 1;
    }
    proof {
        let views = list@.map_values(|s: String| s@);
        assert forall|j: int| 0 <= j < views.len() implies views[j] != name@ by {
            assert(list@[j]@ != name@);
        }
        assert(!views.contains(name@));
    }
    false
}

/// The families credited to memory `memory` at revision `revision`.
pub fn memory_family_ranks(
    candidates: &CandidateAccumulator,
    memory: u128,
    revision: u128,
    exact_target: bool,
    resident: bool,
    temporal_query: bool,
) -> (ranks: FamilyRanks)
    requires
        candidates.wf(),
    ensures
        ranks == spec_family_ranks(candidates.view(), memory, revision, exact_target, resident, temporal_query),
{
    let memory_ref = CognitiveRef::Memory(memory);
    let revision_ref = CognitiveRef::MemoryRevision(revision);
    let exact = candidates.is_exact(&memory_ref) || candidates.is_exact(&revision_ref) || exact_target;
    let (lexical, dense) = candidates.lane_ranks(&memory_ref);
    let (entity, tag_direct, anchor_direct) = match candidates.posting_hits(&memory_ref) {
        Some(hits) => (
            holds_name(hits, "entity_posting"),
            holds_name(hits, "tag_posting"),
            holds_name(hits, "anchor_posting"),
        ),
        None => (false, false, false),
    };
    FamilyRanks {
        exact: if exact {
            Some(1)
        } else {
            None
        },
        runtime: if resident {
            Some(1)
        } else {
            None
        },
        lexical,
        semantic_dense: dense,
        entity: if entity {
            Some(1)
        } else {
            None
        },
        temporal: if temporal_query {
            Some(1)
        } else {
            None
        },
        tag_direct: if tag_direct {
            Some(1)
        } else {
            None
        },
        anchor_direct: if anchor_direct {
            Some(1)
        } else {
            None
        },
    }
}

/// A memory reached only through dense lanes, whatever the variant (a substring
/// fallback included), is credited with the semantic-dense family and never with
/// the lexical one.
pub proof fn dense_hits_never_credit_lexical_family(
    lanes: Map<RefView, LaneView>,
    memory: u128,
    revision: u128,
    rank: usize,
    variant: Seq<char>,
    exact_target: bool,
    resident: bool,
    temporal_query: bool,
)
    requires
        lane_of(lanes, RefView::Memory(memory)).lexical is None,
    ensures
        spec_family_ranks(
            spec_add_dense(lanes, RefView::Memory(memory), rank, variant),
            memory,
            revision,
            exact_target,
            resident,
            temporal_query,
        ).lexical is None,
        spec_family_ranks(
            spec_add_dense(lanes, RefView::Memory(memory), rank, variant),
            memory,
            revision,
            exact_target,
            resident,
            temporal_query,
        ).semantic_dense is Some,
{
}

/// A hit through a posting lane credits the memory with that lane's family: a key
/// under `entity:` credits the entity family, one under `tag:` the direct-tag family,
/// and one under `anchor:` the direct-anchor family, each at rank one, whatever else
/// the lanes hold.
pub proof fn posting_hits_credit_their_families(
    lanes: Map<RefView, LaneView>,
    memory: u128,
    revision: u128,
    key: Seq<char>,
    exact_target: bool,
    resident: bool,
    temporal_query: bool,
)
    ensures
        spec_family_ranks(
            spec_add_posting(lanes, RefView::Memory(memory), spec_posting_lane("entity:"@ + key)),
            memory,
            revision,
            exact_target,
            resident,
            temporal_query,
        ).entity == Some(1usize),
        spec_family_ranks(
            spec_add_posting(lanes, RefView::Memory(memory), spec_posting_lane("tag:"@ + key)),
            memory,
            revision,
            exact_target,
            resident,
            temporal_query,
        ).tag_direct == Some(1usize),
        spec_family_ranks(
            spec_add_posting(lanes, RefView::Memory(memory), spec_posting_lane("anchor:"@ + key)),
            memory,
            revision,
            exact_target,
            resident,
            temporal_query,
        ).anchor_direct == Some(1usize),
{
    reveal_strlit("entity:");
    reveal_strlit("tag:");
    reveal_strlit("anchor:");
    let e = "entity:"@ + key;
    let t = "tag:"@ + key;
    let a = "anchor:"@ + key;
    assert(e.take(7) =~= "entity:"@);
    assert(has_prefix(e, "entity:"@));
    assert(t.take(4) =~= "tag:"@);
    assert(t[0] == 't');
    assert(!has_prefix(t, "entity:"@)) by {
        if t.len() >= 7 {
            assert(t.take(7)[0] != "entity:"@[0]);
        }
    }
    assert(has_prefix(t, "tag:"@));
    assert(a[0] == 'a');
    assert(!has_prefix(a, "entity:"@)) by {
        if a.len() >= 7 {
            assert(a.take(7)[0] != "entity:"@[0]);
        }
    }
    assert(!has_prefix(a, "tag:"@)) by {
        assert(a.take(4)[0] != "tag:"@[0]);
    }
}

/// A memory that no posting lane reached is credited with none of the posting
/// families.
pub proof fn unposted_memories_hold_no_posting_family(
    lanes: Map<RefView, LaneView>,
    memory: u128,
    revision: u128,
    exact_target: bool,
    resident: bool,
    temporal_query: bool,
)
    requires
        lane_of(lanes, RefView::Memory(memory)).postings == Set::<Seq<char>>::empty(),
    ensures
        ({
            let ranks = spec_family_ranks(lanes, memory, revision, exact_target, resident, temporal_query);
            ranks.entity is None && ranks.tag_direct is None && ranks.anchor_direct is None
        }),
{
}

} // verus!
