use nous_memory::authority::semantic_order_is_declared;

#[test]
fn ordinal_without_provenance_is_unordered() {
    assert!(!semantic_order_is_declared(&[Some(0), Some(1)], &[false, false]));
}

#[test]
fn explicit_provenance_and_distinct_ordinals_are_ordered() {
    assert!(semantic_order_is_declared(&[Some(0), Some(1)], &[true, true]));
}

#[test]
fn duplicate_ordinals_are_not_ordered() {
    assert!(!semantic_order_is_declared(&[Some(0), Some(0)], &[true, true]));
}

#[test]
fn order_needs_two_tags_matching_lengths_and_all_ordinals() {
    assert!(!semantic_order_is_declared(&[Some(0)], &[true]));
    assert!(!semantic_order_is_declared(&[Some(0), Some(1)], &[true]));
    assert!(!semantic_order_is_declared(&[Some(0), None], &[true, true]));
    assert!(!semantic_order_is_declared(&[Some(2), Some(1), Some(2)], &[true, true, true]));
    assert!(semantic_order_is_declared(&[Some(5), Some(-1), Some(3)], &[true, true, true]));
    assert!(!semantic_order_is_declared(&[Some(5), Some(-1), Some(3)], &[true, false, true]));
}
