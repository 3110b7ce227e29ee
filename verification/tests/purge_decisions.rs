use nous_memory::error::Error;
use nous_memory::purge::{check_operation_replay, check_purge_scope, purge_disposition, split_affected};

#[test]
fn seed_material_needs_a_whole_subject_purge() {
    assert!(check_purge_scope(true, true).is_ok());
    assert!(check_purge_scope(false, false).is_ok());
    assert!(matches!(
        check_purge_scope(false, true),
        Err(Error::Conflict(m)) if m == "Character Seed belongs to Subject Core; use subject purge for its retained history"
    ));
}

#[test]
fn replayed_operations_must_repeat_their_request() {
    assert!(check_operation_replay(true, true, true).is_ok());
    assert!(matches!(check_operation_replay(true, true, false), Err(Error::Conflict(_))));
    assert!(matches!(check_operation_replay(false, true, true), Err(Error::Conflict(_))));
    assert!(matches!(check_operation_replay(true, false, true), Err(Error::Conflict(_))));
}

#[test]
fn affected_memories_are_deleted_or_regenerated() {
    assert!(purge_disposition(true, None, 4, false));
    assert!(purge_disposition(false, Some(4), 4, false));
    assert!(!purge_disposition(false, Some(5), 4, false));
    assert!(purge_disposition(false, None, 4, true));
    assert!(!purge_disposition(false, None, 4, false));
}

#[test]
fn split_lists_deleted_ascending_and_regenerated_in_order() {
    let (deleted, regenerating) = split_affected(false, Some(9), &[9, 7, 3, 8, 1], &[false, false, true, false, true]);
    assert_eq!(deleted, vec![1, 3, 9]);
    assert_eq!(regenerating, vec![7, 8]);
    let (deleted, regenerating) = split_affected(true, None, &[5, 2, 5], &[false, false, false]);
    assert_eq!(deleted, vec![2, 5]);
    assert!(regenerating.is_empty());
}
