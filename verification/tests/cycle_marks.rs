use nous_memory::cycles::CycleMarks;
use nous_memory::lifecycle::UseKind;

#[test]
fn inspection_and_feedback_mark_memories() {
    let mut marks = CycleMarks::new();
    assert!(!marks.is_exhausted(1));
    marks.inspect(&[3, 1, 3]);
    assert!(marks.is_exhausted(1) && marks.is_exhausted(3));
    assert!(!marks.feedback(UseKind::ExposedToContext, &[5]));
    assert!(!marks.is_exhausted(5));
    assert!(!marks.feedback(UseKind::Abandoned, &[5, 6]));
    assert!(marks.is_exhausted(5) && marks.is_exhausted(6));
    assert!(!marks.feedback(UseKind::ReferencedOrActedOn, &[7]));
    assert!(marks.is_exhausted(7));
    assert!(marks.feedback(UseKind::Followed, &[8]));
    assert!(!marks.is_exhausted(8));
    assert!(marks.is_exhausted(1));
}
