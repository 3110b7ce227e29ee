//! The hit reported for an explicitly requested exact target.
use vstd::prelude::*;
use crate::refs::{CognitiveRef, RefView, ref_views, root_text, support_root};
use crate::families::EvidenceFamily;
use crate::authority::MemoryClass;
use crate::admission::{authority_admits, spec_authority_admits};
use crate::error::Error;

verus! {

/// Which authority a reported object belongs to.
#[derive(Debug, Clone, Copy, PartialEq, Eq, Structural)]
pub enum AuthorityClass {
    SubjectCognition,
    ResourceDescriptor,
    Interpretation,
    Evidence,
}

/// Evidence handed out with a hit.
pub struct EvidenceHandle {
    pub reference: CognitiveRef,
    pub support_role: &'static str,
}

/// A handle through which a hit can be materialized.
pub struct MaterializationHandle {
    pub reference: CognitiveRef,
    pub level: &'static str,
}

/// The hit for an exact target: the target itself, classified by authority, with
/// exact evidence and a materialization handle when requested. It names no revision,
/// memory class or entity, represents the target by its `kind:value` text, and its
/// match evidence is the exact family alone.
pub struct ExactHit {
    pub reference: CognitiveRef,
    pub revision: Option<u128>,
    pub semantic_role: &'static str,
    pub memory_class: Option<MemoryClass>,
    pub representation: Option<String>,
    pub authority: AuthorityClass,
    pub entity_refs: Vec<String>,
    pub evidence: Vec<EvidenceHandle>,
    pub families: Vec<EvidenceFamily>,
    pub explanation: &'static str,
    pub materialization: Vec<MaterializationHandle>,
}

/// The authority class, semantic role and materialization level of each kind of target.
pub open spec fn exact_classification(r: RefView) -> (AuthorityClass, Seq<char>, Seq<char>) {
    match r {
        RefView::Memory(_) | RefView::MemoryRevision(_) => (
            AuthorityClass::SubjectCognition,
            "memory"@,
            "memory_revision"@,
        ),
        RefView::Resource(_) => (AuthorityClass::ResourceDescriptor, "resource_descriptor"@, "resource"@),
        RefView::DerivedRepresentation(_) | RefView::DerivedRegion(_) => (
            AuthorityClass::Interpretation,
            "derived_representation"@,
            "evidence_region"@,
        ),
        RefView::Session(_) => (AuthorityClass::Evidence, "session"@, "session"@),
        RefView::Entity(_) | RefView::Tag(_) | RefView::Anchor(_) => (
            AuthorityClass::SubjectCognition,
            "topology"@,
            "cognitive_ref"@,
        ),
        RefView::Artifact(_) | RefView::SourceRegion(_) | RefView::Occurrence(_)
        | RefView::ExternalObject(_) => (AuthorityClass::Evidence, "evidence"@, "evidence"@),
    }
}

fn classify(reference: &CognitiveRef) -> (class: (AuthorityClass, &'static str, &'static str))
    ensures
        class.0 == exact_classification(reference@).0,
        class.1@ == exact_classification(reference@).1,
        class.2@ == exact_classification(reference@).2,
{
    match reference {
        CognitiveRef::Memory(_) | CognitiveRef::MemoryRevision(_) => (
            AuthorityClass::SubjectCognition,
            "memory",
            "memory_revision",
        ),
        CognitiveRef::Resource(_) => (
            AuthorityClass::ResourceDescriptor,
            "resource_descriptor",
            "resource",
        ),
        CognitiveRef::DerivedRepresentation(_) | CognitiveRef::DerivedRegion(_) => (
            AuthorityClass::Interpretation,
            "derived_representation",
            "evidence_region",
        ),
        CognitiveRef::Session(_) => (AuthorityClass::Evidence, "session", "session"),
        CognitiveRef::Entity(_) | CognitiveRef::Tag(_) | CognitiveRef::Anchor(_) => (
            AuthorityClass::SubjectCognition,
            "topology",
            "cognitive_ref",
        ),
        CognitiveRef::Artifact(_)
        | CognitiveRef::SourceRegion(_)
        | CognitiveRef::Occurrence(_)
        | CognitiveRef::ExternalObject(_) => (AuthorityClass::Evidence, "evidence", "evidence"),
    }
}

/// Whether `h` is the hit reported for exact target `r`: the target itself, with no
/// revision, memory class or entity references, its stored text as representation,
/// the exact family alone, the authority and role of its kind, and evidence and
/// materialization handles exactly when they are asked for.
pub open spec fn is_exact_hit(h: ExactHit, r: RefView, need_evidence: bool, need_materialization: bool) -> bool {
    &&& h.reference@ == r
    &&& h.revision is None
    &&& h.memory_class is None
    &&& (h.representation matches Some(text) && text@ == root_text(r))
    &&& h.entity_refs@.len() == 0
    &&& h.families@ == seq![EvidenceFamily::Exact]
    &&& h.explanation@ == "explicit exact target"@
    &&& h.authority == exact_classification(r).0
    &&& h.semantic_role@ == exact_classification(r).1
    &&& (if need_evidence {
        h.evidence@.len() == 1 && h.evidence@[0].reference@ == r && h.evidence@[0].support_role@
            == "exact"@
    } else {
        h.evidence@.len() == 0
    })
    &&& (if need_materialization {
        h.materialization@.len() == 1 && h.materialization@[0].reference@ == r
            && h.materialization@[0].level@ == exact_classification(r).2
    } else {
        h.materialization@.len() == 0
    })
}

/// The hit for exact target `reference`; evidence and materialization handles are
/// included exactly when requested. Its representation is the reference's stored
/// `kind:value` text (`root_text`). That this text is also how the service's core
/// types display a reference is taken as given here: that display form is defined
/// outside this library, and nothing here checks it.
pub fn exact_hit(reference: &CognitiveRef, need_evidence: bool, need_materialization: bool) -> (hit:
    Option<ExactHit>)
    ensures
        hit matches Some(h) && is_exact_hit(h, reference@, need_evidence, need_materialization),
{
    let (authority, role, level) = classify(reference);
    let mut evidence: Vec<EvidenceHandle> = Vec::new();
    if need_evidence {
        evidence.push(EvidenceHandle { reference: reference.duplicate(), support_role: "exact" });
    }
    let mut materialization: Vec<MaterializationHandle> = Vec::new();
    if need_materialization {
        materialization.push(MaterializationHandle { reference: reference.duplicate(), level });
    }
    let mut families: Vec<EvidenceFamily> = Vec::new();
    families.push(EvidenceFamily::Exact);
    assert(families@ =~= seq![EvidenceFamily::Exact]);
    Some(
        ExactHit {
            reference: reference.duplicate(),
            revision: None,
            semantic_role: role,
            memory_class: None,
            representation: support_root(reference),
            authority,
            entity_refs: Vec::new(),
            evidence,
            families,
            explanation: "explicit exact target",
            materialization,
        },
    )
}

/// Whether exact target `r` is reported: memories are reported through their ranked
/// revisions instead, a revision of a memory that is not active only when suppressed
/// memories are included, and the target's authority must meet the constraint.
pub open spec fn exact_target_reported(
    r: RefView,
    active: bool,
    include_suppressed: bool,
    authority: Option<AuthorityClass>,
) -> bool {
    &&& !(r is Memory)
    &&& (r is MemoryRevision ==> active || include_suppressed)
    &&& spec_authority_admits(authority, exact_classification(r).0)
}

/// The targets reported, in order, when the exact targets `refs` are taken one after
/// another after `found` were reported: `None` when a target outside the subject is
/// met first, and the taking stops as soon as `limit` targets are reported.
pub open spec fn exact_projection(
    refs: Seq<RefView>,
    in_subject: Seq<bool>,
    active: Seq<bool>,
    include_suppressed: bool,
    authority: Option<AuthorityClass>,
    limit: nat,
    found: Seq<RefView>,
) -> Option<Seq<RefView>>
    decreases refs.len(),
{
    if refs.len() == 0 {
        Some(found)
    } else if !in_subject[0] {
        None
    } else if exact_target_reported(refs[0], active[0], include_suppressed, authority) {
        let more = found.push(refs[0]);
        if more.len() >= limit {
            Some(more)
        } else {
            exact_projection(
                refs.drop_first(),
                in_subject.drop_first(),
                active.drop_first(),
                include_suppressed,
                authority,
                limit,
                more,
            )
        }
    } else {
        exact_projection(
            refs.drop_first(),
            in_subject.drop_first(),
            active.drop_first(),
            include_suppressed,
            authority,
            limit,
            found,
        )
    }
}

/// The hits for a query's exact targets `targets`, taken in order. `in_subject[k]`
/// says whether target `k` belongs to the queried subject, and `active[k]` whether,
/// as a revision, its memory is active. A target outside the subject met before
/// `limit` hits are found refuses the query.
pub fn project_exact_targets(
    targets: &[CognitiveRef],
    in_subject: &[bool],
    active: &[bool],
    include_suppressed: bool,
    authority: Option<AuthorityClass>,
    limit: usize,
    need_evidence: bool,
    need_materialization: bool,
) -> (hits: Result<Vec<ExactHit>, Error>)
    requires
        in_subject@.len() == targets@.len(),
        active@.len() == targets@.len(),
    ensures
        match exact_projection(
            ref_views(targets@),
            in_subject@,
            active@,
            include_suppressed,
            authority,
            limit as nat,
            Seq::empty(),
        ) {
            Some(reported) => hits matches Ok(h) && h@.len() == reported.len() && forall|k: int|
                0 <= k < reported.len() ==> is_exact_hit(
                    #[trigger] h@[k],
                    reported[k],
                    need_evidence,
                    need_materialization,
                ),
            None => hits matches Err(Error::Invalid(_)),
        },
{
    let ghost views = ref_views(targets@);
    let ghost whole = exact_projection(
        views,
        in_subject@,
        active@,
        include_suppressed,
        authority,
        limit as nat,
        Seq::empty(),
    );
    let mut hits: Vec<ExactHit> = Vec::new();
    let ghost mut found: Seq<RefView> = Seq::empty();
    proof {
        assert(views.skip(0) =~= views);
        assert(in_subject@.skip(0) =~= in_subject@);
        assert(active@.skip(0) =~= active@);
    }
    let mut i: usize = 0;
    while i < targets.len()
        invariant
            in_subject@.len() == targets@.len(),
            active@.len() == targets@.len(),
            views == ref_views(targets@),
            whole == exact_projection(
                views,
                in_subject@,
                active@,
                include_suppressed,
                authority,
                limit as nat,
                Seq::empty(),
            ),
            i <= targets@.len(),
            hits@.len() == found.len(),
            forall|k: int|
                0 <= k < found.len() ==> is_exact_hit(
                    #[trigger] hits@[k],
                    found[k],
                    need_evidence,
                    need_materialization,
                ),
            whole == exact_projection(
                views.skip(i as int),
                in_subject@.skip(i as int),
                active@.skip(i as int),
                include_suppressed,
                authority,
                limit as nat,
                found,
            ),
        decreases targets@.len() - i,
    {
        let ghost rest = views.skip(i as int);
        proof {
            assert(rest[0] == targets@[i as int]@);
            assert(rest.drop_first() =~= views.skip(i + 1));
            assert(in_subject@.skip(i as int).drop_first() =~= in_subject@.skip(i + 1));
            assert(active@.skip(i as int).drop_first() =~= active@.skip(i + 1));
            assert(in_subject@.skip(i as int)[0] == in_subject@[i as int]);
            assert(active@.skip(i as int)[0] == active@[i as int]);
            assert(rest.len() > 0);
        }
        if !in_subject[i] {
            proof {
                assert(whole is None);
            }
            return Err(Error::Invalid("exact query reference is outside Subject".to_owned()));
        }
        let target = &targets[i];
        let kind_allows = match target {
            CognitiveRef::Memory(_) => false,
            CognitiveRef::MemoryRevision(_) => active[i] || include_suppressed,
            _ => true,
        };
        let (class, _, _) = classify(target);
        let reported = kind_allows && authority_admits(authority, class);
        proof {
            assert(reported == exact_target_reported(rest[0], active@[i as int], include_suppressed, authority));
        }
        if reported {
            let hit = exact_hit(target, need_evidence, need_materialization).unwrap();
            hits.push(hit);
            proof {
                found = found.push(targets@[i as int]@);
            }
            if hits.len() >= limit {
                proof {
                    assert(whole == Some(found));
                }
                return Ok(hits);
            }
        }
        i = i + 1;
    }
    proof {
        assert(views.skip(i as int).len() == 0);
    }
    Ok(hits)
}

proof fn lemma_projection_bounded(
    refs: Seq<RefView>,
    in_subject: Seq<bool>,
    active: Seq<bool>,
    include_suppressed: bool,
    authority: Option<AuthorityClass>,
    limit: nat,
    found: Seq<RefView>,
)
    requires
        in_subject.len() == refs.len(),
        active.len() == refs.len(),
        found.len() < limit || found.len() == 0,
    ensures
        exact_projection(refs, in_subject, active, include_suppressed, authority, limit, found) matches Some(
            reported,
        ) ==> reported.len() <= if limit == 0 {
            1
        } else {
            limit
        },
    decreases refs.len(),
{
    if refs.len() > 0 && in_subject[0] {
        let more = found.push(refs[0]);
        let rest_subject = in_subject.drop_first();
        let rest_active = active.drop_first();
        if exact_target_reported(refs[0], active[0], include_suppressed, authority) {
            if more.len() < limit {
                lemma_projection_bounded(refs.drop_first(), rest_subject, rest_active, include_suppressed, authority, limit, more);
            }
        } else {
            lemma_projection_bounded(refs.drop_first(), rest_subject, rest_active, include_suppressed, authority, limit, found);
        }
    }
}

/// The exact targets of a query yield at most `limit` hits, or one when the limit
/// is zero, since the first reported target is taken before the limit is tested.
pub proof fn exact_hits_stay_within_limit(
    refs: Seq<RefView>,
    in_subject: Seq<bool>,
    active: Seq<bool>,
    include_suppressed: bool,
    authority: Option<AuthorityClass>,
    limit: nat,
)
    requires
        in_subject.len() == refs.len(),
        active.len() == refs.len(),
    ensures
        exact_projection(refs, in_subject, active, include_suppressed, authority, limit, Seq::empty())
            matches Some(reported) ==> reported.len() <= if limit == 0 {
            1
        } else {
            limit
        },
{
    lemma_projection_bounded(refs, in_subject, active, include_suppressed, authority, limit, Seq::empty());
}

/// Exact targets are classified by kind: memories and memory revisions as subject
/// cognition with role `memory` at level `memory_revision`; artifacts, source
/// regions, occurrences and external objects as evidence with role and level
/// `evidence`; derived representations and regions as interpretation with role
/// `derived_representation` at level `evidence_region`; entities, tags and anchors
/// as subject cognition with role `topology` at level `cognitive_ref`; sessions as
/// evidence with role and level `session`; and resources as resource descriptors
/// with role `resource_descriptor` at level `resource`. A hit carries exactly that
/// classification.
pub proof fn exact_targets_are_classified_by_kind(h: ExactHit, r: RefView, need_evidence: bool, need_materialization: bool)
    requires
        is_exact_hit(h, r, need_evidence, need_materialization),
    ensures
        (r is Memory || r is MemoryRevision) ==> h.authority == AuthorityClass::SubjectCognition
            && h.semantic_role@ == "memory"@ && (need_materialization ==> h.materialization@[0].level@
            == "memory_revision"@),
        (r is Artifact || r is SourceRegion || r is Occurrence || r is ExternalObject) ==> h.authority
            == AuthorityClass::Evidence && h.semantic_role@ == "evidence"@ && (need_materialization
            ==> h.materialization@[0].level@ == "evidence"@),
        (r is DerivedRepresentation || r is DerivedRegion) ==> h.authority == AuthorityClass::Interpretation
            && h.semantic_role@ == "derived_representation"@ && (need_materialization
            ==> h.materialization@[0].level@ == "evidence_region"@),
        (r is Entity || r is Tag || r is Anchor) ==> h.authority == AuthorityClass::SubjectCognition
            && h.semantic_role@ == "topology"@ && (need_materialization ==> h.materialization@[0].level@
            == "cognitive_ref"@),
        r is Session ==> h.authority == AuthorityClass::Evidence && h.semantic_role@ == "session"@ && (
        need_materialization ==> h.materialization@[0].level@ == "session"@),
        r is Resource ==> h.authority == AuthorityClass::ResourceDescriptor && h.semantic_role@
            == "resource_descriptor"@ && (need_materialization ==> h.materialization@[0].level@
            == "resource"@),
{
}

/// An authority constraint keeps exactly the exact targets of that authority: an
/// evidence constraint keeps artifacts, source regions, occurrences, external
/// objects and sessions and nothing else, and no constraint drops a target that is
/// not a memory or an inactive revision.
pub proof fn authority_constraints_keep_their_own_targets(r: RefView, active: bool, include_suppressed: bool)
    ensures
        (r is Artifact || r is SourceRegion || r is Occurrence || r is ExternalObject || r is Session)
            <==> exact_target_reported(r, active, include_suppressed, Some(AuthorityClass::Evidence)),
        !(r is Memory) && (r is MemoryRevision ==> active || include_suppressed) ==> exact_target_reported(
            r,
            active,
            include_suppressed,
            None,
        ),
{
}

} // verus!
