use nous_memory::refs::{contains_ref, duplicate_all, support_root, CognitiveRef};
use nous_memory::time::{elapsed_seconds, interval_overlaps, TimeInterval, Timestamp};

fn at(seconds: i64) -> Timestamp {
    Timestamp { seconds, nanos: 0 }
}

#[test]
fn support_roots_name_kind_and_canonical_identifier() {
    let memory = CognitiveRef::Memory(0x67e5504410b1426f9247bb680e5fe0c8);
    assert_eq!(support_root(&memory), Some("memory:67e55044-10b1-426f-9247-bb680e5fe0c8".to_string()));
    let revision = CognitiveRef::MemoryRevision(0xa1a2a3a4b1b2c1c2d1d2d3d4d5d6d7d8);
    assert_eq!(
        support_root(&revision),
        Some("memory_revision:a1a2a3a4-b1b2-c1c2-d1d2-d3d4d5d6d7d8".to_string())
    );
    let entity = CognitiveRef::Entity("entity:host-person:alice".to_string());
    assert_eq!(support_root(&entity), Some("entity:entity:host-person:alice".to_string()));
    assert_eq!(
        support_root(&CognitiveRef::SourceRegion(1)),
        Some("source_region:00000000-0000-0000-0000-000000000001".to_string())
    );
}

#[test]
fn references_compare_by_value() {
    let refs = vec![CognitiveRef::Tag(1), CognitiveRef::Resource("r".to_string())];
    assert!(contains_ref(&refs, &CognitiveRef::Resource("r".to_string())));
    assert!(!contains_ref(&refs, &CognitiveRef::Anchor(1)));
    assert!(!CognitiveRef::Tag(1).same_as(&CognitiveRef::Anchor(1)));
    let copies = duplicate_all(&refs);
    assert_eq!(copies.len(), 2);
    assert!(copies[0].same_as(&refs[0]) && copies[1].same_as(&refs[1]));
}

#[test]
fn elapsed_time_is_whole_and_never_negative() {
    assert_eq!(elapsed_seconds(at(10), at(100)), 90);
    assert_eq!(elapsed_seconds(at(100), at(10)), 0);
    let a = Timestamp { seconds: 10, nanos: 900_000_000 };
    let b = Timestamp { seconds: 12, nanos: 100_000_000 };
    assert_eq!(elapsed_seconds(a, b), 1);
    assert_eq!(elapsed_seconds(Timestamp { seconds: -5, nanos: 0 }, at(5)), 10);
}

#[test]
fn interval_filter() {
    let request = Some(TimeInterval { start: Some(at(10)), end: Some(at(20)) });
    assert!(interval_overlaps(None, None, None));
    assert!(!interval_overlaps(request, None, Some(at(15))));
    assert!(interval_overlaps(request, Some(at(15)), None));
    assert!(interval_overlaps(request, Some(at(5)), Some(at(10))));
    assert!(interval_overlaps(request, Some(at(20)), Some(at(30))));
    assert!(!interval_overlaps(request, Some(at(21)), Some(at(30))));
    assert!(!interval_overlaps(request, Some(at(1)), Some(at(9))));
    assert!(!interval_overlaps(request, Some(at(5)), None));
    let open_end = Some(TimeInterval { start: Some(at(10)), end: None });
    assert!(interval_overlaps(open_end, Some(at(1000)), None));
    // Dropping a bound never rejects what was admitted.
    let open_start = Some(TimeInterval { start: None, end: Some(at(20)) });
    assert!(interval_overlaps(open_start, Some(at(5)), Some(at(10))));
}
