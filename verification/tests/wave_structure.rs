use nous_memory::wave_nodes::{bridge_evidence, negative_polarity, wave_edge_keys, wave_node_order};

#[test]
fn nodes_take_ordinals_by_serving_identifier_stably() {
    assert_eq!(wave_node_order(&[5, 2, 5, 1]).ok(), Some(vec![3, 1, 0, 2]));
    assert_eq!(wave_node_order(&[]).ok(), Some(vec![]));
    assert_eq!(wave_node_order(&[7, 7, 7]).ok(), Some(vec![0, 1, 2]));
}

#[test]
fn polarity_and_bridges_ignore_ascii_case() {
    assert!(negative_polarity("negative"));
    assert!(negative_polarity("NeGaTiVe"));
    assert!(negative_polarity("revoked"));
    assert!(!negative_polarity("Revoked"));
    assert!(!negative_polarity("positive"));
    assert!(!negative_polarity("negatives"));
    assert!(bridge_evidence(true, "co_use"));
    assert!(bridge_evidence(false, "BRIDGE"));
    assert!(!bridge_evidence(false, "bridges"));
}

#[test]
fn edge_keys_are_distinct_and_ascending() {
    assert_eq!(wave_edge_keys(&[(2, 1), (0, 3), (2, 1), (0, 1)]), vec![(0, 1), (0, 3), (2, 1)]);
    assert!(wave_edge_keys(&[]).is_empty());
}
