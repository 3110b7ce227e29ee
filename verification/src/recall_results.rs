//! The decisions of a recall that do not rest on scores: whether to broaden the
//! search and follow episodes, which candidates and revisions may be reported,
//! whether to rerank, and how sufficiency is reported.
use vstd::prelude::*;
use crate::cycles::CycleMarks;
use crate::recall_budget::RecallEffort;
use crate::text::str_eq;

verus! {

/// What a recall is for.
#[derive(Debug, Clone, Copy, PartialEq, Eq, Structural)]
pub enum RecallObjective {
    Current,
    Historical,
    Evolution,
    Transition,
    EpisodeReconstruction,
    Explanation,
    Verification,
    Comparison,
    AssociativeRecollection,
}

/// The position of an effort in the order light, normal, deep, maximum.
pub open spec fn effort_level(effort: RecallEffort) -> int {
    match effort {
        RecallEffort::Light => 0,
        RecallEffort::Normal => 1,
        RecallEffort::Deep => 2,
        RecallEffort::Maximum => 3,
    }
}

fn level_of(effort: RecallEffort) -> (level: u8)
    ensures
        level as int == effort_level(effort),
{
    match effort {
        RecallEffort::Light => 0,
        RecallEffort::Normal => 1,
        RecallEffort::Deep => 2,
        RecallEffort::Maximum => 3,
    }
}

/// Whether a recall searches beyond its direct candidates: associative recollection
/// always does; otherwise an effort of at least normal does when the candidates found
/// so far are fewer than the limit, and an effort of at least deep always does.
pub fn broadens(objective: RecallObjective, effort: RecallEffort, candidates: usize, limit: usize) -> (broaden: bool)
    ensures
        broaden == (objective == RecallObjective::AssociativeRecollection || (effort_level(effort) >= 1
            && (candidates < limit || effort_level(effort) >= 2))),
{
    let level = level_of(effort);
    objective == RecallObjective::AssociativeRecollection || (level >= 1 && (candidates < limit
        || level >= 2))
}

/// Whether a recall follows episode membership from its candidates.
pub fn follows_episodes(objective: RecallObjective) -> (follows: bool)
    ensures
        follows == (objective == RecallObjective::EpisodeReconstruction || objective
            == RecallObjective::Explanation || objective == RecallObjective::Verification || objective
            == RecallObjective::Comparison),
{
    match objective {
        RecallObjective::EpisodeReconstruction
        | RecallObjective::Explanation
        | RecallObjective::Verification
        | RecallObjective::Comparison => true,
        _ => false,
    }
}

/// Whether a ranked candidate is passed over as one the cycle has exhausted; an
/// explicitly requested memory never is.
pub fn passes_over(marks: &CycleMarks, exact: bool, object: u128) -> (passed: bool)
    ensures
        passed == (marks.exhausted_set().contains(object) && !exact),
{
    !exact && marks.is_exhausted(object)
}

/// Whether a revision may be reported: the memory is not suppressed, its
/// availability is `ready`, and a current recall reports no superseded memory.
pub fn recallable_revision(suppressed: bool, availability: &str, superseded: bool, objective: RecallObjective) -> (recallable: bool)
    ensures
        recallable == (!suppressed && availability@ == "ready"@ && !(superseded && objective
            == RecallObjective::Current)),
{
    proof {
        reveal_strlit("ready");
    }
    !suppressed && str_eq(availability, "ready") && !(superseded && objective
        == RecallObjective::Current)
}

/// Whether the results are handed to a configured reranker: there are at least two,
/// no memory was requested explicitly, the effort is above light, and the recall has
/// a text cue.
pub fn wants_rerank(results: usize, exact_targets: usize, reranker_configured: bool, effort: RecallEffort, has_text: bool) -> (rerank: bool)
    ensures
        rerank == (results > 1 && exact_targets == 0 && reranker_configured && effort != RecallEffort::Light
            && has_text),
{
    results > 1 && exact_targets == 0 && reranker_configured && effort != RecallEffort::Light && has_text
}

/// How a recall reports its sufficiency: whether it met the requested count.
pub fn recall_sufficiency(results: usize, limit: usize) -> (sufficiency: &'static str)
    ensures
        sufficiency@ == if results >= limit {
            "requested_count_met"@
        } else {
            "insufficient_candidates"@
        },
{
    if results >= limit {
        "requested_count_met"
    } else {
        "insufficient_candidates"
    }
}

} // verus!
