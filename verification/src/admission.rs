//! Which results a query admits: what its targets ask for, and the authority and
//! source-class constraints that each candidate result must meet.
use vstd::prelude::*;
use crate::exact::AuthorityClass;
use crate::refs::{CognitiveRef, RefView, contains_ref, ref_views};
use crate::text::str_eq;
use crate::time::{TimeInterval, Timestamp, instant_le, interval_overlaps, spec_interval_overlaps};

verus! {

/// What a query asks to have returned.
pub enum QueryTarget {
    AnyRelevantCognition,
    Memory,
    EntityNeighborhood { entity_ref: String },
    AnchorNeighborhood { anchor: u128 },
    Exact { reference: CognitiveRef },
    Evidence,
    Resource,
}

/// The constraints of a query that every admitted result meets: the one authority
/// it must have, if any, and the source classes it must and must not come from.
pub struct AdmissionConstraints {
    pub authority: Option<AuthorityClass>,
    pub source_classes_include: Vec<String>,
    pub source_classes_exclude: Vec<String>,
}

/// Whether a target asks for evidence and derived surrogates.
pub open spec fn target_asks_for_evidence(target: QueryTarget) -> bool {
    match target {
        QueryTarget::AnyRelevantCognition | QueryTarget::Evidence => true,
        _ => false,
    }
}

/// Whether a target asks for memories: any cognition, memories, a neighbourhood, or
/// an exact memory or memory revision.
pub open spec fn target_asks_for_memory(target: QueryTarget) -> bool {
    match target {
        QueryTarget::AnyRelevantCognition
        | QueryTarget::Memory
        | QueryTarget::EntityNeighborhood { .. }
        | QueryTarget::AnchorNeighborhood { .. } => true,
        QueryTarget::Exact { reference } => match reference@ {
            RefView::Memory(_) | RefView::MemoryRevision(_) => true,
            _ => false,
        },
        _ => false,
    }
}

/// Whether some target of `targets` meets `asks`.
pub open spec fn some_target(targets: Seq<QueryTarget>, asks: spec_fn(QueryTarget) -> bool) -> bool {
    exists|i: int| 0 <= i < targets.len() && asks(#[trigger] targets[i])
}

/// Whether a query with `targets` admits evidence and derived surrogates: it names
/// no target, or one that asks for them.
pub fn targets_allow_evidence(targets: &[QueryTarget]) -> (allowed: bool)
    ensures
        allowed == (targets@.len() == 0 || some_target(targets@, |t: QueryTarget| target_asks_for_evidence(t))),
{
    if targets.len() == 0 {
        return true;
    }
    let mut i: usize = 0;
    while i < targets.len()
        invariant
            i <= targets@.len(),
            forall|j: int| 0 <= j < i ==> !target_asks_for_evidence(#[trigger] targets@[j]),
        decreases targets@.len() - i,
    {
        match &targets[i] {
            QueryTarget::AnyRelevantCognition | QueryTarget::Evidence => {
                assert(target_asks_for_evidence(targets@[i as int]));
                return true;
            },
            _ => {},
        }
        i = i + 1;
    }
    false
}

/// Whether a query with `targets` admits memories: it names no target, or one that
/// asks for them.
pub fn targets_allow_memory(targets: &[QueryTarget]) -> (allowed: bool)
    ensures
        allowed == (targets@.len() == 0 || some_target(targets@, |t: QueryTarget| target_asks_for_memory(t))),
{
    if targets.len() == 0 {
        return true;
    }
    let mut i: usize = 0;
    while i < targets.len()
        invariant
            i <= targets@.len(),
            forall|j: int| 0 <= j < i ==> !target_asks_for_memory(#[trigger] targets@[j]),
        decreases targets@.len() - i,
    {
        let asks = match &targets[i] {
            QueryTarget::AnyRelevantCognition
            | QueryTarget::Memory
            | QueryTarget::EntityNeighborhood { .. }
            | QueryTarget::AnchorNeighborhood { .. } => true,
            QueryTarget::Exact { reference } => match reference {
                CognitiveRef::Memory(_) | CognitiveRef::MemoryRevision(_) => true,
                _ => false,
            },
            _ => false,
        };
        if asks {
            assert(target_asks_for_memory(targets@[i as int]));
            return true;
        }
        i = i + 1;
    }
    false
}

/// Whether a query with `targets` asks for resource descriptors; unlike evidence,
/// they are returned only when a target names them.
pub fn targets_ask_for_resources(targets: &[QueryTarget]) -> (asked: bool)
    ensures
        asked == some_target(targets@, |t: QueryTarget| t is Resource),
{
    let mut i: usize = 0;
    while i < targets.len()
        invariant
            i <= targets@.len(),
            forall|j: int| 0 <= j < i ==> !(#[trigger] targets@[j] is Resource),
        decreases targets@.len() - i,
    {
        if let QueryTarget::Resource = &targets[i] {
            assert(targets@[i as int] is Resource);
            return true;
        }
        i = i + 1;
    }
    false
}

/// Whether an authority constraint admits a result of `authority`.
pub open spec fn spec_authority_admits(constraint: Option<AuthorityClass>, authority: AuthorityClass) -> bool {
    match constraint {
        Some(required) => required == authority,
        None => true,
    }
}

/// Whether an authority constraint admits a result of `authority`: there is none,
/// or it names that authority.
pub fn authority_admits(constraint: Option<AuthorityClass>, authority: AuthorityClass) -> (admits: bool)
    ensures
        admits == spec_authority_admits(constraint, authority),
{
    match constraint {
        Some(required) => required == authority,
        None => true,
    }
}

/// Whether `class` is one of `classes`.
pub open spec fn names_class(classes: Seq<String>, class: Seq<char>) -> bool {
    exists|i: int| 0 <= i < classes.len() && #[trigger] classes[i]@ == class
}

/// Whether a result from source class `class` meets the source-class constraints:
/// the class is included (every class is, when none is listed) and not excluded.
pub open spec fn spec_source_class_admitted(constraints: AdmissionConstraints, class: Seq<char>) -> bool {
    &&& (constraints.source_classes_include@.len() == 0 || names_class(
        constraints.source_classes_include@,
        class,
    ))
    &&& !names_class(constraints.source_classes_exclude@, class)
}

fn lists_class(classes: &[String], class: &str) -> (found: bool)
    ensures
        found == names_class(classes@, class@),
{
    let mut i: usize = 0;
    while i < classes.len()
        invariant
            i <= classes@.len(),
            forall|j: int| 0 <= j < i ==> #[trigger] classes@[j]@ != class@,
        decreases classes@.len() - i,
    {
        if str_eq(classes[i].as_str(), class) {
            return true;
        }
        i = i + 1;
    }
    false
}

/// Whether a result from source class `class` meets the source-class constraints.
pub fn source_class_admitted(constraints: &AdmissionConstraints, class: &str) -> (admitted: bool)
    ensures
        admitted == spec_source_class_admitted(*constraints, class@),
{
    let included = constraints.source_classes_include.len() == 0 || lists_class(
        &constraints.source_classes_include,
        class,
    );
    included && !lists_class(&constraints.source_classes_exclude, class)
}

/// Whether a memory of class `class` meets the memory-class constraints: it is
/// included (every class is, when none is listed) and not excluded.
pub open spec fn spec_memory_class_admitted(included: Seq<String>, excluded: Seq<String>, class: Seq<char>) -> bool {
    (included.len() == 0 || names_class(included, class)) && !names_class(excluded, class)
}

/// Whether a memory of class `class` meets the memory-class constraints.
pub fn memory_class_admitted(included: &[String], excluded: &[String], class: &str) -> (admitted: bool)
    ensures
        admitted == spec_memory_class_admitted(included@, excluded@, class@),
{
    (included.len() == 0 || lists_class(included, class)) && !lists_class(excluded, class)
}

/// When a memory happened, was observed, and holds.
pub struct MemoryTimes {
    pub occurred_at: Option<Timestamp>,
    pub observed_at: Timestamp,
    pub valid_from: Option<Timestamp>,
    pub valid_to: Option<Timestamp>,
}

/// Whether a temporal cue's interval meets a memory: at its occurrence, at its
/// observation, or over its validity.
pub open spec fn cue_meets(cue: TimeInterval, times: MemoryTimes) -> bool {
    ||| spec_interval_overlaps(Some(cue), times.occurred_at, times.occurred_at)
    ||| spec_interval_overlaps(Some(cue), Some(times.observed_at), Some(times.observed_at))
    ||| spec_interval_overlaps(Some(cue), times.valid_from, times.valid_to)
}

/// Whether a memory meets a query's time constraints: its occurrence meets the
/// occurred interval, its validity the valid interval, and, when the query has
/// temporal cues, one of them meets it.
pub open spec fn spec_memory_times_admitted(
    occurred: Option<TimeInterval>,
    valid: Option<TimeInterval>,
    cues: Seq<TimeInterval>,
    times: MemoryTimes,
) -> bool {
    &&& spec_interval_overlaps(occurred, times.occurred_at, times.occurred_at)
    &&& spec_interval_overlaps(valid, times.valid_from, times.valid_to)
    &&& (cues.len() == 0 || exists|i: int| 0 <= i < cues.len() && cue_meets(#[trigger] cues[i], times))
}

/// Whether a memory meets a query's occurred and valid intervals and its temporal cues.
pub fn memory_times_admitted(
    occurred: Option<TimeInterval>,
    valid: Option<TimeInterval>,
    cues: &[TimeInterval],
    times: &MemoryTimes,
) -> (admitted: bool)
    ensures
        admitted == spec_memory_times_admitted(occurred, valid, cues@, *times),
{
    if !interval_overlaps(occurred, times.occurred_at, times.occurred_at) {
        return false;
    }
    if !interval_overlaps(valid, times.valid_from, times.valid_to) {
        return false;
    }
    if cues.len() == 0 {
        return true;
    }
    let mut i: usize = 0;
    while i < cues.len()
        invariant
            i <= cues@.len(),
            spec_interval_overlaps(occurred, times.occurred_at, times.occurred_at),
            spec_interval_overlaps(valid, times.valid_from, times.valid_to),
            forall|j: int| 0 <= j < i ==> !cue_meets(#[trigger] cues@[j], *times),
        decreases cues@.len() - i,
    {
        let cue = cues[i];
        if interval_overlaps(Some(cue), times.occurred_at, times.occurred_at) || interval_overlaps(
            Some(cue),
            Some(times.observed_at),
            Some(times.observed_at),
        ) || interval_overlaps(Some(cue), times.valid_from, times.valid_to) {
            assert(cue_meets(cues@[i as int], *times));
            return true;
        }
        i = i + 1;
    }
    false
}

/// Whether some class of `present` is one of `classes`.
pub open spec fn shares_class(classes: Seq<String>, present: Seq<String>) -> bool {
    exists|k: int| 0 <= k < present.len() && names_class(classes, #[trigger] present[k]@)
}

/// Whether a memory whose evidence comes from the source classes `present` meets the
/// source-class constraints: some class of it is included (when any is listed), and
/// none is excluded.
pub open spec fn spec_memory_sources_admitted(constraints: AdmissionConstraints, present: Seq<String>) -> bool {
    &&& (constraints.source_classes_include@.len() == 0 || shares_class(
        constraints.source_classes_include@,
        present,
    ))
    &&& !shares_class(constraints.source_classes_exclude@, present)
}

fn lists_some_class(classes: &Vec<String>, present: &[String]) -> (found: bool)
    ensures
        found == shares_class(classes@, present@),
{
    let mut k: usize = 0;
    while k < present.len()
        invariant
            k <= present@.len(),
            forall|j: int| 0 <= j < k ==> !names_class(classes@, #[trigger] present@[j]@),
        decreases present@.len() - k,
    {
        if lists_class(classes, present[k].as_str()) {
            return true;
        }
        k = k + 1;
    }
    false
}

/// Whether a memory whose evidence comes from the source classes `present` meets the
/// source-class constraints.
pub fn memory_sources_admitted(constraints: &AdmissionConstraints, present: &[String]) -> (admitted: bool)
    ensures
        admitted == spec_memory_sources_admitted(*constraints, present@),
{
    let included = constraints.source_classes_include.len() == 0 || lists_some_class(
        &constraints.source_classes_include,
        present,
    );
    included && !lists_some_class(&constraints.source_classes_exclude, present)
}

/// Whether an evidence candidate joins the results: it is not among the references
/// already returned, its authority meets the constraint, and, where it has a source
/// class, that class meets the source-class constraints.
pub open spec fn spec_admits_candidate(
    constraints: AdmissionConstraints,
    returned: Seq<RefView>,
    reference: RefView,
    authority: AuthorityClass,
    source_class: Option<Seq<char>>,
) -> bool {
    &&& !returned.contains(reference)
    &&& spec_authority_admits(constraints.authority, authority)
    &&& match source_class {
        Some(class) => spec_source_class_admitted(constraints, class),
        None => true,
    }
}

/// Whether an evidence candidate joins the results, given the references already
/// returned and the candidate's authority and source class (`None` for results that
/// come from no source class, as derived surrogates and resources).
pub fn admits_candidate(
    constraints: &AdmissionConstraints,
    returned: &[CognitiveRef],
    reference: &CognitiveRef,
    authority: AuthorityClass,
    source_class: Option<&str>,
) -> (admitted: bool)
    ensures
        admitted == spec_admits_candidate(
            *constraints,
            ref_views(returned@),
            reference@,
            authority,
            match source_class {
                Some(c) => Some(c@),
                None => None,
            },
        ),
{
    if contains_ref(returned, reference) {
        return false;
    }
    if !authority_admits(constraints.authority, authority) {
        return false;
    }
    match source_class {
        Some(class) => source_class_admitted(constraints, class),
        None => true,
    }
}

/// `acc` extended by each candidate of `cands` that `admitted` passes and that `acc`
/// does not yet hold, in order; no candidate is taken once `acc` holds `limit`.
pub open spec fn appended_until_limit(acc: Seq<RefView>, cands: Seq<RefView>, admitted: Seq<bool>, limit: nat) -> Seq<RefView>
    decreases cands.len(),
{
    if cands.len() == 0 || acc.len() >= limit {
        acc
    } else {
        let next = if admitted[0] && !acc.contains(cands[0]) {
            acc.push(cands[0])
        } else {
            acc
        };
        appended_until_limit(next, cands.drop_first(), admitted.drop_first(), limit)
    }
}

/// `acc` extended by each candidate of `cands` that `admitted` passes and that `acc`
/// does not yet hold, in order.
pub open spec fn appended_all(acc: Seq<RefView>, cands: Seq<RefView>, admitted: Seq<bool>) -> Seq<RefView>
    decreases cands.len(),
{
    if cands.len() == 0 {
        acc
    } else {
        let next = if admitted[0] && !acc.contains(cands[0]) {
            acc.push(cands[0])
        } else {
            acc
        };
        appended_all(next, cands.drop_first(), admitted.drop_first())
    }
}

/// The candidates that fit in the room a result list of `len` entries has under
/// `limit`: the first `limit - len` of them.
pub open spec fn within_room<A>(cands: Seq<A>, len: nat, limit: nat) -> Seq<A> {
    if len >= limit {
        Seq::empty()
    } else if cands.len() <= limit - len {
        cands
    } else {
        cands.take(limit - len)
    }
}

proof fn lemma_appending_keeps_results(acc: Seq<RefView>, cands: Seq<RefView>, admitted: Seq<bool>, limit: nat, until_limit: bool)
    requires
        admitted.len() == cands.len(),
    ensures
        ({
            let out = if until_limit {
                appended_until_limit(acc, cands, admitted, limit)
            } else {
                appended_all(acc, cands, admitted)
            };
            &&& out.len() >= acc.len()
            &&& out.subrange(0, acc.len() as int) == acc
            &&& (acc.no_duplicates() ==> out.no_duplicates())
            &&& (until_limit ==> out.len() <= if acc.len() >= limit { acc.len() } else { limit })
            &&& (!until_limit ==> out.len() <= acc.len() + cands.len())
        }),
    decreases cands.len(),
{
    if cands.len() == 0 || (until_limit && acc.len() >= limit) {
        assert(acc.subrange(0, acc.len() as int) =~= acc);
    } else {
        let next = if admitted[0] && !acc.contains(cands[0]) {
            acc.push(cands[0])
        } else {
            acc
        };
        assert(next.subrange(0, acc.len() as int) =~= acc);
        if acc.no_duplicates() && admitted[0] && !acc.contains(cands[0]) {
            assert(next.no_duplicates()) by {
                assert forall|a: int, b: int| 0 <= a < b < next.len() implies next[a] != next[b] by {
                    if b == acc.len() {
                        assert(acc[a] == next[a]);
                    }
                }
            }
        }
        lemma_appending_keeps_results(next, cands.drop_first(), admitted.drop_first(), limit, until_limit);
        let out = if until_limit {
            appended_until_limit(next, cands.drop_first(), admitted.drop_first(), limit)
        } else {
            appended_all(next, cands.drop_first(), admitted.drop_first())
        };
        assert(out.subrange(0, acc.len() as int) =~= out.subrange(0, next.len() as int).subrange(0, acc.len() as int));
    }
}

/// Appends to `returned`, in order, each candidate that `admitted` passes and that is
/// not yet returned, and stops once `limit` results are returned; nothing is taken
/// when the list is already full.
pub fn append_until_limit(returned: &mut Vec<CognitiveRef>, candidates: &[CognitiveRef], admitted: &[bool], limit: usize)
    requires
        admitted@.len() == candidates@.len(),
    ensures
        ref_views(final(returned)@) == appended_until_limit(ref_views(old(returned)@), ref_views(candidates@), admitted@, limit as nat),
{
    let ghost cands = ref_views(candidates@);
    let ghost whole = appended_until_limit(ref_views(returned@), cands, admitted@, limit as nat);
    let mut i: usize = 0;
    proof {
        assert(cands.skip(0) =~= cands);
        assert(admitted@.skip(0) =~= admitted@);
    }
    while i < candidates.len() && returned.len() < limit
        invariant
            admitted@.len() == candidates@.len(),
            cands == ref_views(candidates@),
            i <= candidates@.len(),
            whole == appended_until_limit(ref_views(returned@), cands.skip(i as int), admitted@.skip(i as int), limit as nat),
        decreases candidates@.len() - i,
    {
        proof {
            assert(cands.skip(i as int).drop_first() =~= cands.skip(i + 1));
            assert(admitted@.skip(i as int).drop_first() =~= admitted@.skip(i + 1));
            assert(cands.skip(i as int)[0] == candidates@[i as int]@);
            assert(admitted@.skip(i as int)[0] == admitted@[i as int]);
        }
        let ghost before = ref_views(returned@);
        if admitted[i] && !contains_ref(returned.as_slice(), &candidates[i]) {
            returned.push(candidates[i].duplicate());
            proof {
                assert(ref_views(returned@) =~= before.push(candidates@[i as int]@));
            }
        }
        proof {
            let next = if admitted@[i as int] && !before.contains(cands[i as int]) {
                before.push(cands[i as int])
            } else {
                before
            };
            assert(ref_views(returned@) == next);
            assert(whole == appended_until_limit(next, cands.skip(i + 1), admitted@.skip(i + 1), limit as nat));
        }
        i = i + 1;
    }
    proof {
        if i < candidates.len() {
            assert(returned@.len() >= limit);
        } else {
            assert(cands.skip(i as int).len() == 0);
        }
    }
}

/// Appends to `returned`, in order, each of the first candidates that fit in the room
/// left under `limit` that `admitted` passes and that is not yet returned; a candidate
/// passed over still uses up its place.
pub fn append_within_room(returned: &mut Vec<CognitiveRef>, candidates: &[CognitiveRef], admitted: &[bool], limit: usize)
    requires
        admitted@.len() == candidates@.len(),
    ensures
        ref_views(final(returned)@) == appended_all(
            ref_views(old(returned)@),
            within_room(ref_views(candidates@), old(returned)@.len(), limit as nat),
            within_room(admitted@, old(returned)@.len(), limit as nat),
        ),
{
    let ghost start = returned@.len();
    let ghost cands = within_room(ref_views(candidates@), start, limit as nat);
    let ghost flags = within_room(admitted@, start, limit as nat);
    let ghost whole = appended_all(ref_views(returned@), cands, flags);
    let room = remaining_slots(limit, returned.len());
    let n = if room < candidates.len() {
        room
    } else {
        candidates.len()
    };
    proof {
        assert(cands.len() == n && flags.len() == n);
        assert(forall|k: int| 0 <= k < n ==> #[trigger] cands[k] == candidates@[k]@);
        assert(forall|k: int| 0 <= k < n ==> #[trigger] flags[k] == admitted@[k]);
        assert(cands.skip(0) =~= cands);
        assert(flags.skip(0) =~= flags);
    }
    let mut i: usize = 0;
    while i < n
        invariant
            admitted@.len() == candidates@.len(),
            n <= candidates@.len(),
            cands.len() == n,
            flags.len() == n,
            forall|k: int| 0 <= k < n ==> #[trigger] cands[k] == candidates@[k]@,
            forall|k: int| 0 <= k < n ==> #[trigger] flags[k] == admitted@[k],
            i <= n,
            whole == appended_all(ref_views(returned@), cands.skip(i as int), flags.skip(i as int)),
        decreases n - i,
    {
        proof {
            assert(cands.skip(i as int).drop_first() =~= cands.skip(i + 1));
            assert(flags.skip(i as int).drop_first() =~= flags.skip(i + 1));
            assert(cands.skip(i as int)[0] == cands[i as int]);
            assert(flags.skip(i as int)[0] == flags[i as int]);
        }
        let ghost before = ref_views(returned@);
        if admitted[i] && !contains_ref(returned.as_slice(), &candidates[i]) {
            returned.push(candidates[i].duplicate());
            proof {
                assert(ref_views(returned@) =~= before.push(candidates@[i as int]@));
            }
        }
        proof {
            let next = if flags[i as int] && !before.contains(cands[i as int]) {
                before.push(cands[i as int])
            } else {
                before
            };
            assert(ref_views(returned@) == next);
            assert(whole == appended_all(next, cands.skip(i + 1), flags.skip(i + 1)));
        }
        i = i + 1;
    }
    proof {
        assert(cands.skip(n as int).len() == 0);
    }
}

/// Appending evidence hits keeps the earlier results, in order, at the front, adds no
/// reference that the list already holds or adds twice, and does not take the list
/// beyond `limit` (a list already at or past it is left as it is), whether candidates
/// are taken until the list is full or only as many as there is room for.
pub proof fn appending_keeps_results_and_limit(acc: Seq<RefView>, cands: Seq<RefView>, admitted: Seq<bool>, limit: nat)
    requires
        admitted.len() == cands.len(),
    ensures
        ({
            let out = appended_until_limit(acc, cands, admitted, limit);
            &&& out.subrange(0, acc.len() as int) == acc
            &&& (acc.no_duplicates() ==> out.no_duplicates())
            &&& out.len() <= if acc.len() >= limit { acc.len() } else { limit }
        }),
        ({
            let out = appended_all(acc, within_room(cands, acc.len(), limit), within_room(admitted, acc.len(), limit));
            &&& out.subrange(0, acc.len() as int) == acc
            &&& (acc.no_duplicates() ==> out.no_duplicates())
            &&& out.len() <= if acc.len() >= limit { acc.len() } else { limit }
        }),
{
    lemma_appending_keeps_results(acc, cands, admitted, limit, true);
    let c = within_room(cands, acc.len(), limit);
    let a = within_room(admitted, acc.len(), limit);
    assert(c.len() == a.len());
    lemma_appending_keeps_results(acc, c, a, limit, false);
}

/// How many more candidates a result list of `len` entries may take under `limit`.
pub fn remaining_slots(limit: usize, len: usize) -> (slots: usize)
    ensures
        slots == if len < limit {
            (limit - len) as usize
        } else {
            0
        },
{
    limit.saturating_sub(len)
}

/// Whether instant `at` lies within `cue`, each missing bound being open.
pub open spec fn cue_contains(cue: TimeInterval, at: Timestamp) -> bool {
    &&& (cue.start matches Some(s) ==> instant_le(s, at))
    &&& (cue.end matches Some(e) ==> instant_le(at, e))
}

/// A temporal cue that contains the instant a memory occurred at, the instant it was
/// observed at, or an instant of its validity admits the memory, whatever other cues
/// the query has; with no occurred or valid constraint nothing else can refuse it.
pub proof fn cues_admit_memories_they_contain(cues: Seq<TimeInterval>, c: int, times: MemoryTimes, at: Timestamp)
    requires
        0 <= c < cues.len(),
        cue_contains(cues[c], at),
        times.occurred_at == Some(at) || times.observed_at == at || (times.valid_from == Some(at)
            && times.valid_to is None),
    ensures
        spec_memory_times_admitted(None, None, cues, times),
{
    assert(cue_meets(cues[c], times));
}

/// A memory whose times meet no temporal cue of a query that has cues is refused.
pub proof fn memories_outside_every_cue_are_refused(cues: Seq<TimeInterval>, times: MemoryTimes, occurred: Option<TimeInterval>, valid: Option<TimeInterval>)
    requires
        cues.len() > 0,
        forall|c: int| 0 <= c < cues.len() ==> {
            &&& !(times.occurred_at matches Some(o) && cue_contains(#[trigger] cues[c], o))
            &&& !cue_contains(cues[c], times.observed_at)
            &&& times.valid_from is None
        },
    ensures
        !spec_memory_times_admitted(occurred, valid, cues, times),
{
    assert forall|c: int| 0 <= c < cues.len() implies !cue_meets(#[trigger] cues[c], times) by {
        assert(!(times.occurred_at matches Some(o) && cue_contains(cues[c], o)));
        assert(!cue_contains(cues[c], times.observed_at));
    }
}

} // verus!
