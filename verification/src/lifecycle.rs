//! Admission rules of the service's operations: cognitive cycles and feedback,
//! processing obligations, subject creation and seeds, entity binding, anchors
//! derived by consolidation, and the bounds of a recall intent.
use vstd::prelude::*;
use crate::error::Error;
use crate::text::{str_eq, is_blank, all_white_space};
use crate::models::{byte_len, utf8_len};
use crate::refs::{CognitiveRef, RefView, root_text, support_root, uuid_string, uuid_text, parse_uuid, parsed_uuid};
use vstd::string::*;

verus! {

/// Kinds of recorded use of memories within a cognitive cycle.
#[derive(Debug, Clone, Copy, PartialEq, Eq, Structural)]
pub enum UseKind {
    Surfaced,
    Inspected,
    ExposedToContext,
    Followed,
    ReferencedOrActedOn,
    Abandoned,
    CycleResolved,
    CycleInsufficient,
}

/// The use event recorded when a cycle closes with `outcome`, if the outcome is known.
pub open spec fn spec_cycle_outcome(outcome: Seq<char>) -> Option<UseKind> {
    if outcome == "resolved"@ {
        Some(UseKind::CycleResolved)
    } else if outcome == "insufficient"@ {
        Some(UseKind::CycleInsufficient)
    } else if outcome == "abandoned"@ {
        Some(UseKind::Abandoned)
    } else {
        None
    }
}

/// The refusal of a payload that holds no identifier under `key`.
pub open spec fn missing_key_reason(key: Seq<char>) -> Seq<char> {
    "missing "@ + key
}

fn missing_key(key: &str) -> (e: Error)
    ensures
        e matches Error::Invalid(m) && m@ == missing_key_reason(key@),
{
    let mut reason = "missing ".to_owned();
    reason.append(key);
    Error::Invalid(reason)
}

/// The identifier that an obligation payload holds as text under `key`: `field` is
/// that entry's string, or `None` where the entry is missing or is no string. A
/// missing entry and a text that is no identifier are refused alike, naming the key.
pub fn payload_uuid(field: Option<&str>, key: &str) -> (id: Result<u128, Error>)
    ensures
        match field {
            Some(text) => match parsed_uuid(text@) {
                Some(x) => id == Ok::<u128, Error>(x),
                None => id matches Err(Error::Invalid(m)) && m@ == missing_key_reason(key@),
            },
            None => id matches Err(Error::Invalid(m)) && m@ == missing_key_reason(key@),
        },
{
    match field {
        Some(text) => match parse_uuid(text) {
            Some(x) => Ok(x),
            None => Err(missing_key(key)),
        },
        None => Err(missing_key(key)),
    }
}

/// The use event that closes a cycle with `outcome`.
pub fn cycle_outcome(outcome: &str) -> (kind: Result<UseKind, Error>)
    ensures
        match spec_cycle_outcome(outcome@) {
            Some(k) => kind == Ok::<UseKind, Error>(k),
            None => kind matches Err(Error::Invalid(_)),
        },
{
    if str_eq(outcome, "resolved") {
        Ok(UseKind::CycleResolved)
    } else if str_eq(outcome, "insufficient") {
        Ok(UseKind::CycleInsufficient)
    } else if str_eq(outcome, "abandoned") {
        Ok(UseKind::Abandoned)
    } else {
        Err(Error::Invalid("invalid cycle outcome".to_owned()))
    }
}

/// Host feedback may report exposure, following, reference or abandonment, for at
/// most 64 objects.
pub open spec fn feedback_admissible(kind: UseKind, objects: nat) -> bool {
    &&& (kind == UseKind::ExposedToContext || kind == UseKind::Followed || kind
        == UseKind::ReferencedOrActedOn || kind == UseKind::Abandoned)
    &&& objects <= 64
}

/// Admits host feedback of `kind` about `objects` objects.
pub fn check_feedback(kind: UseKind, objects: usize) -> (result: Result<(), Error>)
    ensures
        result is Ok <==> feedback_admissible(kind, objects as nat),
        result is Err ==> (result matches Err(Error::Invalid(_))),
{
    let allowed = match kind {
        UseKind::ExposedToContext | UseKind::Followed | UseKind::ReferencedOrActedOn
        | UseKind::Abandoned => true,
        _ => false,
    };
    if !allowed || objects > 64 {
        return Err(Error::Invalid("unsupported host feedback or exceeded object budget".to_owned()));
    }
    Ok(())
}

/// Admits a new cognitive cycle while fewer than 1000 cycles are active in total and
/// fewer than 64 for its Subject.
pub fn check_cycle_budget(active_cycles: usize, subject_cycles: usize) -> (result: Result<(), Error>)
    ensures
        result is Ok <==> (active_cycles < 1000 && subject_cycles < 64),
        result is Err ==> (result matches Err(Error::Unavailable(_))),
{
    if active_cycles >= 1000 || subject_cycles >= 64 {
        return Err(Error::Unavailable("active cognitive cycle budget exhausted; close an existing cycle".to_owned()));
    }
    Ok(())
}

/// Admits inspection of at most 64 objects in one call.
pub fn check_inspection(objects: usize) -> (result: Result<(), Error>)
    ensures
        result is Ok <==> objects <= 64,
        result is Err ==> (result matches Err(Error::Invalid(_))),
{
    if objects > 64 {
        return Err(Error::Invalid("inspection object budget exceeded".to_owned()));
    }
    Ok(())
}

/// Admits a processing batch of 1 to 1000 obligations.
pub fn check_processing_limit(limit: usize) -> (result: Result<(), Error>)
    ensures
        result is Ok <==> (1 <= limit <= 1000),
        result is Err ==> (result matches Err(Error::Invalid(_))),
{
    if limit == 0 || limit > 1000 {
        return Err(Error::Invalid("processing limit must be 1..1000".to_owned()));
    }
    Ok(())
}

/// Admits a subject listing page of 1 to 1000 entries.
pub fn check_list_limit(limit: u32) -> (result: Result<(), Error>)
    ensures
        result is Ok <==> (1 <= limit <= 1000),
        result is Err ==> (result matches Err(Error::Invalid(_))),
{
    if limit == 0 || limit > 1000 {
        return Err(Error::Invalid("list limit must be 1..1000".to_owned()));
    }
    Ok(())
}

/// Outcome of one processing obligation: done, or why it failed.
#[derive(Debug, Clone, Copy, PartialEq, Eq, Structural)]
pub enum ObligationOutcome {
    Succeeded,
    DependencyUnavailable,
    RevisionChanged,
    InvalidMaterial,
}

/// How a failed obligation is recorded: its new state, its problem code, and
/// whether the batch stops.
#[derive(Debug, Clone, Copy, PartialEq, Eq)]
pub struct FailureDisposition {
    pub state: &'static str,
    pub problem_code: &'static str,
    pub stop_batch: bool,
}

/// Transient failures (an unavailable dependency, a changed revision) put the
/// obligation back to pending and stop the batch, so an outage does not spin on the
/// same obligation; invalid material fails the obligation and the batch goes on.
pub open spec fn spec_disposition(outcome: ObligationOutcome) -> (Seq<char>, Seq<char>, bool) {
    match outcome {
        ObligationOutcome::Succeeded => ("succeeded"@, ""@, false),
        ObligationOutcome::DependencyUnavailable => ("pending"@, "dependency_unavailable"@, true),
        ObligationOutcome::RevisionChanged => ("pending"@, "revision_changed"@, true),
        ObligationOutcome::InvalidMaterial => ("failed"@, "invalid_material"@, false),
    }
}

/// The outcome class of an error raised while processing an obligation.
pub open spec fn outcome_of_error(error: Error) -> ObligationOutcome {
    match error {
        Error::Unavailable(_) | Error::Infrastructure(_) => ObligationOutcome::DependencyUnavailable,
        Error::Conflict(_) => ObligationOutcome::RevisionChanged,
        _ => ObligationOutcome::InvalidMaterial,
    }
}

/// Classifies an error raised while processing an obligation.
pub fn classify_failure(error: &Error) -> (outcome: ObligationOutcome)
    ensures
        outcome == outcome_of_error(*error),
{
    match error {
        Error::Unavailable(_) | Error::Infrastructure(_) => ObligationOutcome::DependencyUnavailable,
        Error::Conflict(_) => ObligationOutcome::RevisionChanged,
        _ => ObligationOutcome::InvalidMaterial,
    }
}

/// How an obligation with `outcome` is recorded.
pub fn disposition(outcome: ObligationOutcome) -> (d: FailureDisposition)
    ensures
        d.state@ == spec_disposition(outcome).0,
        d.problem_code@ == spec_disposition(outcome).1,
        d.stop_batch == spec_disposition(outcome).2,
{
    match outcome {
        ObligationOutcome::Succeeded => FailureDisposition {
            state: "succeeded",
            problem_code: "",
            stop_batch: false,
        },
        ObligationOutcome::DependencyUnavailable => FailureDisposition {
            state: "pending",
            problem_code: "dependency_unavailable",
            stop_batch: true,
        },
        ObligationOutcome::RevisionChanged => FailureDisposition {
            state: "pending",
            problem_code: "revision_changed",
            stop_batch: true,
        },
        ObligationOutcome::InvalidMaterial => FailureDisposition {
            state: "failed",
            problem_code: "invalid_material",
            stop_batch: false,
        },
    }
}

/// A batch stops exactly on the failures that leave the obligation pending.
pub proof fn pending_failures_stop_the_batch(outcome: ObligationOutcome)
    ensures
        spec_disposition(outcome).2 <==> spec_disposition(outcome).0 == "pending"@,
{
    reveal_strlit("pending");
    reveal_strlit("failed");
    reveal_strlit("succeeded");
    assert("pending"@[0] == 'p');
    assert("failed"@[0] == 'f');
    assert("succeeded"@[0] == 's');
}

/// Counts of one processing run.
#[derive(Debug, Clone, Copy, PartialEq, Eq, Structural)]
pub struct ProcessingResult {
    pub succeeded: usize,
    pub failed: usize,
    pub pending: i64,
}

/// Admits a new entity binding: its state is bound, unbound or disputed, and it
/// carries an entity reference exactly when it is bound.
pub open spec fn binding_admissible(state: Seq<char>, has_entity: bool) -> bool {
    &&& (state == "bound"@ || state == "unbound"@ || state == "disputed"@)
    &&& (state == "bound"@ <==> has_entity)
}

/// Admits a rebinding of an entity mention to `state`, with or without an entity.
pub fn check_binding(state: &str, has_entity: bool) -> (result: Result<(), Error>)
    ensures
        result is Ok <==> binding_admissible(state@, has_entity),
        result is Err ==> (result matches Err(Error::Invalid(_))),
{
    let bound = str_eq(state, "bound");
    if !bound && !str_eq(state, "unbound") && !str_eq(state, "disputed") {
        return Err(Error::Invalid("invalid entity binding state".to_owned()));
    }
    if bound && !has_entity {
        return Err(Error::Invalid("bound entity binding requires an EntityRef".to_owned()));
    }
    if !bound && has_entity {
        return Err(Error::Invalid("unbound/disputed binding cannot carry an EntityRef".to_owned()));
    }
    Ok(())
}

/// The distinct support roots among `roots`.
pub open spec fn root_set(roots: Seq<Option<String>>) -> Set<Seq<char>> {
    Set::new(|r: Seq<char>| exists|i: int| 0 <= i < roots.len() && (#[trigger] roots[i] matches Some(s) && s@ == r))
}

/// An anchor proposed by consolidation without explicit confirmation must rest on
/// at least two independent support roots.
pub open spec fn anchor_support_sufficient(origin: Seq<char>, confirmed: bool, roots: Set<Seq<char>>) -> bool {
    origin == "consolidation"@ && !confirmed ==> roots.len() >= 2
}

/// The distinct support roots of `supports`.
pub open spec fn support_roots(supports: Seq<CognitiveRef>) -> Set<Seq<char>> {
    Set::new(|t: Seq<char>| exists|i: int| 0 <= i < supports.len() && #[trigger] root_text(supports[i]@) == t)
}

/// Whether some other root than `first` occurs in `roots`.
fn other_root(roots: &[Option<String>], first: &String) -> (found: bool)
    ensures
        found == exists|i: int| 0 <= i < roots@.len() && (#[trigger] roots@[i] matches Some(s) && s@ != first@),
{
    let mut i: usize = 0;
    while i < roots.len()
        invariant
            i <= roots@.len(),
            forall|j: int| 0 <= j < i ==> !(#[trigger] roots@[j] matches Some(s) && s@ != first@),
        decreases roots@.len() - i,
    {
        match &roots[i] {
            Some(s) => {
                if !str_eq(s.as_str(), first.as_str()) {
                    return true;
                }
            },
            None => {},
        }
        i = i + 1;
    }
    false
}

/// Admits the supports of a new anchor with `origin`, given the support root each
/// support resolves to (none for supports without an evidence root).
pub fn check_anchor_support(origin: &str, confirmed: bool, roots: &[Option<String>]) -> (result: Result<(), Error>)
    ensures
        result is Ok <==> anchor_support_sufficient(origin@, confirmed, root_set(roots@)),
        result is Err ==> (result matches Err(Error::Invalid(_))),
{
    if !str_eq(origin, "consolidation") || confirmed {
        return Ok(());
    }
    let mut i: usize = 0;
    while i < roots.len()
        invariant
            i <= roots@.len(),
            origin@ == "consolidation"@,
            !confirmed,
            forall|j: int| 0 <= j < i ==> #[trigger] roots@[j] is None,
        decreases roots@.len() - i,
    {
        match &roots[i] {
            Some(first) => {
                let found = other_root(roots, first);
                proof {
                    let set = root_set(roots@);
                    lemma_root_set_finite(roots@);
                    assert(set.contains(first@));
                    if found {
                        let j = choose|j: int| 0 <= j < roots@.len() && (#[trigger] roots@[j] matches Some(s) && s@ != first@);
                        let other = roots@[j]->Some_0@;
                        assert(set.contains(other));
                        assert(set.insert(first@).insert(other) =~= set.insert(first@).insert(other));
                        lemma_two_elements(set, first@, other);
                    } else {
                        assert(set =~= Set::empty().insert(first@)) by {
                            assert forall|r: Seq<char>| set.contains(r) implies r == first@ by {
                                let j = choose|j: int| 0 <= j < roots@.len() && (#[trigger] roots@[j] matches Some(s) && s@ == r);
                            }
                        }
                        assert(set.len() == 1);
                    }
                }
                if found {
                    return Ok(());
                }
                return Err(Error::Invalid("consolidation-derived Anchor needs two independent support roots or explicit confirmation".to_owned()));
            },
            None => {},
        }
        i = i + 1;
    }
    proof {
        assert(root_set(roots@) =~= Set::<Seq<char>>::empty());
    }
    Err(Error::Invalid("consolidation-derived Anchor needs two independent support roots or explicit confirmation".to_owned()))
}

/// Admits the supports of a new anchor with `origin` by their support roots: an
/// unconfirmed anchor proposed by consolidation needs two distinct roots.
pub fn check_anchor_supports(origin: &str, confirmed: bool, supports: &[CognitiveRef]) -> (result: Result<(), Error>)
    ensures
        result is Ok <==> anchor_support_sufficient(origin@, confirmed, support_roots(supports@)),
        result is Err ==> (result matches Err(Error::Invalid(_))),
{
    let mut roots: Vec<Option<String>> = Vec::new();
    let mut i: usize = 0;
    while i < supports.len()
        invariant
            i <= supports@.len(),
            roots@.len() == i,
            forall|j: int| 0 <= j < i ==> (#[trigger] roots@[j] matches Some(s) && s@ == root_text(supports@[j]@)),
        decreases supports@.len() - i,
    {
        roots.push(support_root(&supports[i]));
        i = i + 1;
    }
    proof {
        assert forall|t: Seq<char>| #[trigger] root_set(roots@).contains(t) <==> support_roots(supports@).contains(t) by {
            if root_set(roots@).contains(t) {
                let j = choose|j: int| 0 <= j < roots@.len() && (#[trigger] roots@[j] matches Some(s) && s@ == t);
                assert(root_text(supports@[j]@) == t);
            }
            if support_roots(supports@).contains(t) {
                let j = choose|j: int| 0 <= j < supports@.len() && #[trigger] root_text(supports@[j]@) == t;
                assert(roots@[j] matches Some(s) && s@ == t);
            }
        }
        assert(root_set(roots@) =~= support_roots(supports@));
    }
    check_anchor_support(origin, confirmed, roots.as_slice())
}

/// The distinct roots of finitely many supports are finitely many.
proof fn lemma_root_set_finite(roots: Seq<Option<String>>)
    ensures
        root_set(roots).finite(),
{
    let names = roots.map_values(|o: Option<String>| match o {
        Some(s) => s@,
        None => Seq::<char>::empty(),
    });
    assert forall|r: Seq<char>| root_set(roots).contains(r) implies names.to_set().contains(r) by {
        let j = choose|j: int| 0 <= j < roots.len() && (#[trigger] roots[j] matches Some(s) && s@ == r);
        assert(names[j] == r);
        assert(names.contains(r));
    }
    vstd::seq_lib::seq_to_set_is_finite(names);
    vstd::set_lib::lemma_len_subset(root_set(roots), names.to_set());
}

proof fn lemma_two_elements(set: Set<Seq<char>>, a: Seq<char>, b: Seq<char>)
    requires
        set.contains(a),
        set.contains(b),
        a != b,
        set.finite(),
    ensures
        set.len() >= 2,
{
    let pair = Set::empty().insert(a).insert(b);
    assert(pair.subset_of(set));
    vstd::set_lib::lemma_len_subset(pair, set);
}

/// A subject label is at most 1024 bytes.
pub fn check_subject_label(label: &Option<String>) -> (result: Result<(), Error>)
    ensures
        result is Ok <==> (label matches Some(l) ==> utf8_len(l@) <= 1024),
        result is Err ==> (result matches Err(Error::Invalid(_))),
{
    match label {
        Some(l) => {
            if byte_len(l) > 1024 {
                return Err(Error::Invalid("subject label exceeds 1024 bytes".to_owned()));
            }
            Ok(())
        },
        None => Ok(()),
    }
}

/// Content of a Subject's Character Seed.
pub enum SeedContent {
    Inline { content: String, media_type: String },
    InlineBytes { bytes: Vec<u8>, media_type: String },
    Artifact { artifact_id: u128 },
}

/// A Character Seed and its author.
pub struct SeedInput {
    pub content: SeedContent,
    pub authored_by: String,
}

/// A seed is admissible when its author is nonblank and at most 1024 bytes, inline
/// text is nonblank plain text or Markdown, and inline bytes are nonempty, within the
/// upload limit and carry a media type of 1 to 256 bytes. A seed that names an
/// existing artifact is admissible here; its ownership is checked against the store.
pub open spec fn seed_admissible(seed: SeedInput, max_upload_bytes: u64) -> bool {
    &&& !all_white_space(seed.authored_by@)
    &&& utf8_len(seed.authored_by@) <= 1024
    &&& match seed.content {
        SeedContent::Inline { content, media_type } => (media_type@ == "text/plain"@ || media_type@
            == "text/markdown"@) && !all_white_space(content@),
        SeedContent::InlineBytes { bytes, media_type } => bytes@.len() > 0 && bytes@.len()
            <= max_upload_bytes && utf8_len(media_type@) > 0 && utf8_len(media_type@) <= 256,
        SeedContent::Artifact { .. } => true,
    }
}

/// Admits a Character Seed before its content is stored.
pub fn check_seed(seed: &SeedInput, max_upload_bytes: u64) -> (result: Result<(), Error>)
    ensures
        result is Ok <==> seed_admissible(*seed, max_upload_bytes),
        result is Err ==> (result matches Err(Error::Invalid(_))),
{
    if is_blank(seed.authored_by.as_str()) || byte_len(&seed.authored_by) > 1024 {
        return Err(Error::Invalid("seed authored_by must be nonempty and at most 1024 bytes".to_owned()));
    }
    match &seed.content {
        SeedContent::Inline { content, media_type } => {
            let text = str_eq(media_type.as_str(), "text/plain") || str_eq(
                media_type.as_str(),
                "text/markdown",
            );
            if !text || is_blank(content.as_str()) {
                return Err(Error::Invalid("inline Character Seed requires nonempty plain text or Markdown".to_owned()));
            }
            Ok(())
        },
        SeedContent::InlineBytes { bytes, media_type } => {
            let media = byte_len(media_type);
            if bytes.len() == 0 || bytes.len() as u64 > max_upload_bytes || media == 0 || media > 256 {
                return Err(Error::Invalid("inline Character Seed bytes or media type are invalid".to_owned()));
            }
            Ok(())
        },
        SeedContent::Artifact { .. } => Ok(()),
    }
}

/// A new Subject's seed must be supplied inline.
pub fn check_new_subject_seed(seed: &SeedInput) -> (result: Result<(), Error>)
    ensures
        result is Ok <==> !(seed.content is Artifact),
        result is Err ==> (result matches Err(Error::Invalid(_))),
{
    match &seed.content {
        SeedContent::Artifact { .. } => Err(Error::Invalid("CreateSubject Character Seed must be supplied inline".to_owned())),
        _ => Ok(()),
    }
}

/// Bounds of a recall intent: a result limit of 1 to 400, at most 64 targets,
/// reference cues and entity cues, and cue text of at most 65536 bytes.
pub open spec fn recall_intent_bounded(
    limit: usize,
    targets: usize,
    references: usize,
    entities: usize,
    text_bytes: Option<usize>,
) -> bool {
    &&& 1 <= limit <= 400
    &&& targets <= 64
    &&& references <= 64
    &&& entities <= 64
    &&& text_bytes matches Some(n) ==> n <= 65536
}

/// Admits a recall intent with the given sizes.
pub fn check_recall_bounds(
    limit: usize,
    targets: usize,
    references: usize,
    entities: usize,
    text_bytes: Option<usize>,
) -> (result: Result<(), Error>)
    ensures
        result is Ok <==> recall_intent_bounded(limit, targets, references, entities, text_bytes),
        result is Err ==> (result matches Err(Error::Invalid(_))),
{
    let text_too_long = match text_bytes {
        Some(n) => n > 65536,
        None => false,
    };
    if limit == 0 || limit > 400 || targets > 64 || references > 64 || entities > 64 || text_too_long {
        return Err(Error::Invalid("recall intent exceeds bounds".to_owned()));
    }
    Ok(())
}

/// Each pair of neighbouring objects in `objects`.
pub open spec fn neighbour_pairs(objects: Seq<u128>) -> Seq<(u128, u128)> {
    Seq::new(
        if objects.len() == 0 {
            0
        } else {
            (objects.len() - 1) as nat
        },
        |i: int| (objects[i], objects[i + 1]),
    )
}

/// The association pairs a strengthening use records: from the object it was
/// followed from to each other object, or else between neighbouring distinct objects.
pub open spec fn spec_co_use_pairs(objects: Seq<u128>, from: Option<u128>) -> Seq<(u128, u128)> {
    match from {
        Some(f) => objects.filter_map(|id: u128| if id != f { Some((f, id)) } else { None }),
        None => neighbour_pairs(objects).filter_map(
            |p: (u128, u128)| if p.0 != p.1 { Some(p) } else { None },
        ),
    }
}

/// The association pairs recorded for a strengthening use of `objects`.
pub fn co_use_pairs(objects: &[u128], from: Option<u128>) -> (pairs: Vec<(u128, u128)>)
    ensures
        pairs@ == spec_co_use_pairs(objects@, from),
{
    let mut pairs: Vec<(u128, u128)> = Vec::new();
    match from {
        Some(f) => {
            let ghost step = |id: u128| if id != f { Some((f, id)) } else { None };
            let mut i: usize = 0;
            while i < objects.len()
                invariant
                    i <= objects@.len(),
                    step == (|id: u128| if id != f { Some((f, id)) } else { None }),
                    pairs@ == objects@.take(i as int).filter_map(step),
                decreases objects@.len() - i,
            {
                let id = objects[i];
                proof {
                    assert(objects@.take(i + 1).drop_last() =~= objects@.take(i as int));
                    assert(objects@.take(i + 1).last() == id);
                }
                if id != f {
                    pairs.push((f, id));
                }
                i = i + 1;
            }
            proof {
                assert(objects@.take(objects@.len() as int) =~= objects@);
            }
        },
        None => {
            let ghost step = |p: (u128, u128)| if p.0 != p.1 { Some(p) } else { None };
            let ghost windows = neighbour_pairs(objects@);
            if objects.len() > 1 {
                let mut i: usize = 0;
                let last: usize = objects.len() - 1;
                while i < last
                    invariant
                        last == objects@.len() - 1,
                        i <= last,
                        windows == neighbour_pairs(objects@),
                        step == (|p: (u128, u128)| if p.0 != p.1 { Some(p) } else { None }),
                        pairs@ == windows.take(i as int).filter_map(step),
                    decreases objects@.len() - i,
                {
                    let a = objects[i];
                    let b = objects[i + 1];
                    proof {
                        assert(windows.take(i + 1).drop_last() =~= windows.take(i as int));
                        assert(windows.take(i + 1).last() == (a, b));
                    }
                    if a != b {
                        pairs.push((a, b));
                    }
                    i = i + 1;
                }
                proof {
                    assert(windows.take(i as int) =~= windows);
                }
            } else {
                proof {
                    assert(windows =~= Seq::<(u128, u128)>::empty());
                }
            }
        },
    }
    pairs
}

/// The evidence class of the associations a use of `kind` records.
pub fn co_use_evidence_class(kind: UseKind) -> (class: &'static str)
    ensures
        class@ == (if kind == UseKind::Followed {
            "followed"@
        } else {
            "meaningful_co_recall"@
        }),
{
    if kind == UseKind::Followed {
        "followed"
    } else {
        "meaningful_co_recall"
    }
}

/// A use never associates an object with itself, and a followed use only links the
/// object it was followed from.
pub proof fn co_use_pairs_link_distinct_objects(objects: Seq<u128>, from: Option<u128>, pair: (u128, u128))
    requires
        spec_co_use_pairs(objects, from).contains(pair),
    ensures
        pair.0 != pair.1,
        from matches Some(f) ==> pair.0 == f,
{
    match from {
        Some(f) => {
            let step = |id: u128| if id != f { Some((f, id)) } else { None };
            objects.lemma_filter_map_contains(step, pair);
            let t = choose|t: u128| #[trigger] objects.contains(t) && step(t) == Some(pair);
        },
        None => {
            let step = |p: (u128, u128)| if p.0 != p.1 { Some(p) } else { None };
            neighbour_pairs(objects).lemma_filter_map_contains(step, pair);
            let t = choose|t: (u128, u128)| #[trigger] neighbour_pairs(objects).contains(t) && step(t) == Some(pair);
        },
    }
}

/// The support root under which an anchor's support counts toward independence:
/// a memory, or the memory a revision belongs to (`revision_memory`, when the
/// revision is known), or an evidence object; other references count toward none.
pub open spec fn spec_anchor_root(r: RefView, revision_memory: Option<u128>) -> Option<Seq<char>> {
    match r {
        RefView::Memory(m) => Some("memory:"@ + uuid_text(m)),
        RefView::MemoryRevision(_) => match revision_memory {
            Some(m) => Some("memory:"@ + uuid_text(m)),
            None => None,
        },
        RefView::Occurrence(o) => Some("occurrence:"@ + uuid_text(o)),
        RefView::SourceRegion(x) => Some("source_region:"@ + uuid_text(x)),
        RefView::DerivedRepresentation(x) => Some("derived_representation:"@ + uuid_text(x)),
        RefView::DerivedRegion(x) => Some("derived_region:"@ + uuid_text(x)),
        _ => None,
    }
}

/// The support root of an anchor support, given the memory its revision belongs to
/// when the support is a memory revision.
pub fn anchor_support_root(reference: &CognitiveRef, revision_memory: Option<u128>) -> (root: Option<
    String,
>)
    ensures
        match spec_anchor_root(reference@, revision_memory) {
            Some(t) => root matches Some(s) && s@ == t,
            None => root is None,
        },
{
    let (prefix, id) = match reference {
        CognitiveRef::Memory(m) => ("memory:", *m),
        CognitiveRef::MemoryRevision(_) => match revision_memory {
            Some(m) => ("memory:", m),
            None => return None,
        },
        CognitiveRef::Occurrence(o) => ("occurrence:", *o),
        CognitiveRef::SourceRegion(x) => ("source_region:", *x),
        CognitiveRef::DerivedRepresentation(x) => ("derived_representation:", *x),
        CognitiveRef::DerivedRegion(x) => ("derived_region:", *x),
        _ => return None,
    };
    let mut text = prefix.to_owned();
    let value = uuid_string(id);
    text.append(value.as_str());
    Some(text)
}

/// A tag needs a nonblank label.
pub fn check_tag_label(label: &str) -> (result: Result<(), Error>)
    ensures
        result is Ok <==> !all_white_space(label@),
        result is Err ==> (result matches Err(Error::Invalid(_))),
{
    if is_blank(label) {
        return Err(Error::Invalid("tag label is required".to_owned()));
    }
    Ok(())
}

/// An anchor needs a nonblank description.
pub fn check_anchor_description(description: &str) -> (result: Result<(), Error>)
    ensures
        result is Ok <==> !all_white_space(description@),
        result is Err ==> (result matches Err(Error::Invalid(_))),
{
    if is_blank(description) {
        return Err(Error::Invalid("anchor description is required".to_owned()));
    }
    Ok(())
}

/// The evidence a meaningful-use association rests on: its memory revision when
/// given, else its occurrence, as a stored kind and identifier; neither is refused.
pub fn meaningful_use_reference(revision: Option<u128>, occurrence: Option<u128>) -> (reference:
    Result<(&'static str, u128), Error>)
    ensures
        match (revision, occurrence) {
            (Some(r), _) => reference matches Ok(p) && p.0@ == "memory_revision"@ && p.1 == r,
            (None, Some(o)) => reference matches Ok(p) && p.0@ == "occurrence"@ && p.1 == o,
            (None, None) => reference matches Err(Error::Invalid(_)),
        },
{
    match (revision, occurrence) {
        (Some(r), _) => Ok(("memory_revision", r)),
        (None, Some(o)) => Ok(("occurrence", o)),
        (None, None) => Err(Error::Invalid("meaningful-use association needs an evidence reference".to_owned())),
    }
}

/// The kinds of processing obligation a worker serves.
#[derive(Debug, Clone, Copy, PartialEq, Eq, Structural)]
pub enum ObligationKind {
    Ingest,
    Regenerate,
    Embedding,
    Projection,
}

/// The stored kinds a worker claims: ingestion and regeneration always, embedding
/// when an embedding model is configured, projection when a projection is.
pub open spec fn served_kinds(embedding: bool, projection: bool) -> Seq<Seq<char>> {
    seq!["ingest"@, "regenerate"@] + (if embedding {
        seq!["embedding"@]
    } else {
        Seq::empty()
    }) + (if projection {
        seq!["projection"@]
    } else {
        Seq::empty()
    })
}

/// The stored obligation kinds a worker with the given capabilities claims.
pub fn obligation_kinds(embedding: bool, projection: bool) -> (kinds: Vec<&'static str>)
    ensures
        kinds@.map_values(|k: &'static str| k@) == served_kinds(embedding, projection),
{
    let mut kinds: Vec<&'static str> = Vec::new();
    kinds.push("ingest");
    kinds.push("regenerate");
    if embedding {
        kinds.push("embedding");
    }
    if projection {
        kinds.push("projection");
    }
    assert(kinds@.map_values(|k: &'static str| k@) =~= served_kinds(embedding, projection));
    kinds
}

/// The obligation kind a stored name denotes, if any.
pub open spec fn spec_obligation_kind(v: Seq<char>) -> Option<ObligationKind> {
    if v == "ingest"@ {
        Some(ObligationKind::Ingest)
    } else if v == "embedding"@ {
        Some(ObligationKind::Embedding)
    } else if v == "projection"@ {
        Some(ObligationKind::Projection)
    } else if v == "regenerate"@ {
        Some(ObligationKind::Regenerate)
    } else {
        None
    }
}

/// Decodes a claimed obligation's kind; an unknown kind fails that obligation.
pub fn parse_obligation_kind(kind: &str) -> (result: Result<ObligationKind, Error>)
    ensures
        match spec_obligation_kind(kind@) {
            Some(k) => result == Ok::<ObligationKind, Error>(k),
            None => result matches Err(Error::Invalid(_)),
        },
{
    if str_eq(kind, "ingest") {
        Ok(ObligationKind::Ingest)
    } else if str_eq(kind, "embedding") {
        Ok(ObligationKind::Embedding)
    } else if str_eq(kind, "projection") {
        Ok(ObligationKind::Projection)
    } else if str_eq(kind, "regenerate") {
        Ok(ObligationKind::Regenerate)
    } else {
        Err(Error::Invalid("unsupported memory obligation".to_owned()))
    }
}

/// The decisions of one processing run: how many obligations it may still claim
/// and what it has counted so far.
pub struct ProcessingRun {
    limit: usize,
    claimed: usize,
    succeeded: usize,
    failed: usize,
    stopped: bool,
}

impl ProcessingRun {
    /// The number of obligations the run may claim.
    pub closed spec fn claim_limit(&self) -> nat {
        self.limit as nat
    }

    /// The number of obligations processed so far.
    pub closed spec fn claimed_count(&self) -> nat {
        self.claimed as nat
    }

    /// The number of obligations that succeeded so far.
    pub closed spec fn succeeded_count(&self) -> nat {
        self.succeeded as nat
    }

    /// The number of obligations that failed so far.
    pub closed spec fn failed_count(&self) -> nat {
        self.failed as nat
    }

    /// Whether a failure that leaves its obligation pending has stopped the run.
    pub closed spec fn is_stopped(&self) -> bool {
        self.stopped
    }

    /// Every processed obligation was counted once, within the limit.
    pub closed spec fn wf(&self) -> bool {
        &&& self.claimed <= self.limit
        &&& self.succeeded + self.failed == self.claimed
    }

    /// A run that may claim `limit` obligations, 1 to 1000.
    pub fn new(limit: usize) -> (run: Result<ProcessingRun, Error>)
        ensures
            run is Ok <==> 1 <= limit <= 1000,
            run is Err ==> (run matches Err(Error::Invalid(_))),
            run matches Ok(r) ==> r.wf() && r.claim_limit() == limit && r.claimed_count() == 0
                && !r.is_stopped(),
    {
        match check_processing_limit(limit) {
            Ok(()) => Ok(ProcessingRun { limit, claimed: 0, succeeded: 0, failed: 0, stopped: false }),
            Err(e) => Err(e),
        }
    }

    /// Whether the run claims another obligation.
    pub fn may_claim(&self) -> (more: bool)
        ensures
            more == (!self.is_stopped() && self.claimed_count() < self.claim_limit()),
    {
        !self.stopped && self.claimed < self.limit
    }

    /// Counts the outcome of a claimed obligation and says how it is recorded; a
    /// failure that leaves the obligation pending stops the run.
    pub fn record(&mut self, outcome: ObligationOutcome) -> (d: FailureDisposition)
        requires
            old(self).wf(),
            !old(self).is_stopped(),
            old(self).claimed_count() < old(self).claim_limit(),
        ensures
            final(self).wf(),
            final(self).claim_limit() == old(self).claim_limit(),
            final(self).claimed_count() == old(self).claimed_count() + 1,
            outcome == ObligationOutcome::Succeeded ==> final(self).succeeded_count()
                == old(self).succeeded_count() + 1 && final(self).failed_count() == old(self).failed_count(),
            outcome != ObligationOutcome::Succeeded ==> final(self).failed_count()
                == old(self).failed_count() + 1 && final(self).succeeded_count() == old(self).succeeded_count(),
            final(self).is_stopped() == spec_disposition(outcome).2,
            d.state@ == spec_disposition(outcome).0,
            d.problem_code@ == spec_disposition(outcome).1,
            d.stop_batch == spec_disposition(outcome).2,
    {
        let d = disposition(outcome);
        self.claimed = self.claimed + 1;
        if outcome == ObligationOutcome::Succeeded {
            self.succeeded = self.succeeded + 1;
        } else {
            self.failed = self.failed + 1;
        }
        self.stopped = d.stop_batch;
        d
    }

    /// The counts of the run, with the number of obligations left pending or running.
    pub fn result(&self, pending: i64) -> (counts: ProcessingResult)
        ensures
            counts.succeeded == self.succeeded_count(),
            counts.failed == self.failed_count(),
            counts.pending == pending,
    {
        ProcessingResult { succeeded: self.succeeded, failed: self.failed, pending }
    }
}

/// A run counts each obligation it processed once, as a success or a failure, and
/// never processes more obligations than it may claim.
pub proof fn processing_runs_stay_bounded(run: ProcessingRun)
    requires
        run.wf(),
    ensures
        run.succeeded_count() + run.failed_count() == run.claimed_count(),
        run.claimed_count() <= run.claim_limit(),
{
}

} // verus!
