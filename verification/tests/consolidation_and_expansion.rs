use nous_memory::consolidation::{merge_support, merged_ids, SupportList, SupportRefs};
use nous_memory::expansion::{ExpansionState, NodeKind, NodeRef};
use nous_memory::graph::{check_topology_artifact, TopologyEdgeShape};
use nous_memory::error::Error;

fn support(sources: Vec<u128>, artifacts: Vec<u128>, derivations: Vec<u128>, entities: Vec<u128>) -> SupportRefs {
    SupportRefs { source_refs: sources, artifact_refs: artifacts, derivation_refs: derivations, entities }
}

#[test]
fn consolidated_support_is_the_sorted_union() {
    let group = vec![
        support(vec![5, 1], vec![9], vec![], vec![3, 3]),
        support(vec![1, 7], vec![], vec![2], vec![4]),
        support(vec![], vec![9, 8], vec![], vec![]),
    ];
    let merged = merge_support(&group);
    assert_eq!(merged.source_refs, vec![1, 5, 7]);
    assert_eq!(merged.artifact_refs, vec![8, 9]);
    assert_eq!(merged.derivation_refs, vec![2]);
    assert_eq!(merged.entities, vec![3, 4]);
    assert!(merged_ids(&[], SupportList::Sources).is_empty());
}

fn node(id: u128) -> NodeRef {
    NodeRef { kind: NodeKind::Memory, id }
}

#[test]
fn expansion_hops_skip_loaded_nodes_and_respect_budgets() {
    let mut state = ExpansionState::new();
    let plan = state.plan_hop(&[node(1), node(2), node(3)], 10, 2).expect("first hop");
    assert_eq!(plan.nodes, vec![node(1), node(2)]);
    assert_eq!(plan.edge_limit, 10);
    state.record_hop(&plan.nodes, 4);
    assert_eq!(state.loaded_count(), 2);
    assert_eq!(state.edges(), 4);
    assert!(state.is_loaded(node(1)) && !state.is_loaded(node(3)));
    // The state budget is spent.
    assert!(state.plan_hop(&[node(3)], 10, 2).is_none());
    // With room left, already loaded nodes are skipped and the edge budget shrinks.
    let plan = state.plan_hop(&[node(2), node(3), node(1), node(4)], 10, 5).expect("second hop");
    assert_eq!(plan.nodes, vec![node(3), node(4)]);
    assert_eq!(plan.edge_limit, 6);
    state.record_hop(&plan.nodes, 6);
    assert!(state.plan_hop(&[node(9)], 10, 50).is_none());
    assert!(state.plan_hop(&[node(1)], 100, 50).is_none());
    state.record_hop(&[node(4), node(4)], 0);
    assert_eq!(state.loaded_count(), 4);
}

#[test]
fn topology_artifacts_are_checked_before_serving() {
    let edge = |from, to| TopologyEdgeShape { from, to, values_valid: true };
    assert!(check_topology_artifact(&[0, 1, 2], &[edge(0, 1), edge(1, 0), edge(2, 2)]).is_ok());
    assert!(matches!(check_topology_artifact(&[0, 2], &[]), Err(Error::Infrastructure(_))));
    assert!(matches!(check_topology_artifact(&[0, 1], &[edge(0, 2)]), Err(Error::Infrastructure(_))));
    assert!(matches!(check_topology_artifact(&[0, 1], &[edge(0, 1), edge(0, 1)]), Err(Error::Infrastructure(_))));
    let bad_weight = TopologyEdgeShape { from: 0, to: 1, values_valid: false };
    assert!(check_topology_artifact(&[0, 1], &[bad_weight]).is_err());
}
