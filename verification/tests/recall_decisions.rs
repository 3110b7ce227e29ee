use nous_memory::cycles::CycleMarks;
use nous_memory::recall_budget::RecallEffort;
use nous_memory::recall_results::{
    broadens, follows_episodes, passes_over, recall_sufficiency, recallable_revision, wants_rerank,
    RecallObjective,
};

#[test]
fn broadening_depends_on_objective_effort_and_shortfall() {
    assert!(broadens(RecallObjective::AssociativeRecollection, RecallEffort::Light, 10, 5));
    assert!(!broadens(RecallObjective::Current, RecallEffort::Light, 0, 5));
    assert!(broadens(RecallObjective::Current, RecallEffort::Normal, 4, 5));
    assert!(!broadens(RecallObjective::Current, RecallEffort::Normal, 5, 5));
    assert!(broadens(RecallObjective::Current, RecallEffort::Deep, 50, 5));
    assert!(broadens(RecallObjective::Historical, RecallEffort::Maximum, 50, 5));
}

#[test]
fn episodes_are_followed_for_reconstructive_objectives() {
    assert!(follows_episodes(RecallObjective::EpisodeReconstruction));
    assert!(follows_episodes(RecallObjective::Comparison));
    assert!(!follows_episodes(RecallObjective::Current));
    assert!(!follows_episodes(RecallObjective::AssociativeRecollection));
}

#[test]
fn exhausted_candidates_are_passed_over_unless_exact() {
    let mut marks = CycleMarks::new();
    marks.inspect(&[7]);
    assert!(passes_over(&marks, false, 7));
    assert!(!passes_over(&marks, true, 7));
    assert!(!passes_over(&marks, false, 8));
}

#[test]
fn only_ready_unsuppressed_revisions_are_reported() {
    assert!(recallable_revision(false, "ready", false, RecallObjective::Current));
    assert!(!recallable_revision(true, "ready", false, RecallObjective::Current));
    assert!(!recallable_revision(false, "pending", false, RecallObjective::Historical));
    assert!(!recallable_revision(false, "ready", true, RecallObjective::Current));
    assert!(recallable_revision(false, "ready", true, RecallObjective::Historical));
}

#[test]
fn reranking_needs_several_results_and_no_exact_targets() {
    assert!(wants_rerank(2, 0, true, RecallEffort::Normal, true));
    assert!(!wants_rerank(1, 0, true, RecallEffort::Normal, true));
    assert!(!wants_rerank(2, 1, true, RecallEffort::Normal, true));
    assert!(!wants_rerank(2, 0, false, RecallEffort::Normal, true));
    assert!(!wants_rerank(2, 0, true, RecallEffort::Light, true));
    assert!(!wants_rerank(2, 0, true, RecallEffort::Deep, false));
}

#[test]
fn sufficiency_reports_whether_the_count_was_met() {
    assert_eq!(recall_sufficiency(5, 5), "requested_count_met");
    assert_eq!(recall_sufficiency(6, 5), "requested_count_met");
    assert_eq!(recall_sufficiency(4, 5), "insufficient_candidates");
}
