//! Integrity of a persisted wave topology: node ordinals and edge endpoints.
use vstd::prelude::*;
use crate::error::Error;

verus! {

/// One persisted topology edge: its endpoints and whether its weight and raw support
/// are admissible numbers (finite, and a weight that is not negative).
#[derive(Debug, Clone, Copy, PartialEq, Eq, Structural)]
pub struct TopologyEdgeShape {
    pub from: u32,
    pub to: u32,
    pub values_valid: bool,
}

/// Whether edge `i` of `edges` is well formed among `nodes` nodes and joins a pair
/// of nodes that no earlier edge joins.
pub open spec fn edge_admissible(edges: Seq<TopologyEdgeShape>, i: int, nodes: nat) -> bool {
    &&& edges[i].from < nodes
    &&& edges[i].to < nodes
    &&& edges[i].values_valid
    &&& forall|j: int| 0 <= j < i ==> !(#[trigger] edges[j].from == edges[i].from && edges[j].to == edges[i].to)
}

/// A persisted topology is intact when node `k` carries serving identifier `k` and
/// every edge is admissible.
pub open spec fn topology_intact(serving_ids: Seq<u32>, edges: Seq<TopologyEdgeShape>) -> bool {
    &&& forall|k: int| 0 <= k < serving_ids.len() ==> #[trigger] serving_ids[k] == k
    &&& forall|i: int| 0 <= i < edges.len() ==> #[trigger] edge_admissible(edges, i, serving_ids.len())
}

/// Checks a persisted topology before it is served; a corrupt one is an
/// infrastructure failure.
pub fn check_topology_artifact(serving_ids: &[u32], edges: &[TopologyEdgeShape]) -> (result: Result<
    (),
    Error,
>)
    ensures
        result is Ok <==> topology_intact(serving_ids@, edges@),
        result is Err ==> (result matches Err(Error::Infrastructure(_))),
{
    let mut k: usize = 0;
    while k < serving_ids.len()
        invariant
            k <= serving_ids@.len(),
            forall|a: int| 0 <= a < k ==> #[trigger] serving_ids@[a] == a,
        decreases serving_ids@.len() - k,
    {
        if serving_ids[k] as usize != k {
            return Err(Error::Infrastructure("topology node ordinals are corrupt".to_owned()));
        }
        k = k + 1;
    }
    let n = serving_ids.len();
    let mut i: usize = 0;
    while i < edges.len()
        invariant
            i <= edges@.len(),
            n == serving_ids@.len(),
            forall|a: int| 0 <= a < i ==> #[trigger] edge_admissible(edges@, a, n as nat),
        decreases edges@.len() - i,
    {
        let edge = edges[i];
        if edge.from as usize >= n || edge.to as usize >= n || !edge.values_valid {
            assert(!edge_admissible(edges@, i as int, n as nat));
            return Err(Error::Infrastructure("topology edge artifact is corrupt".to_owned()));
        }
        let mut j: usize = 0;
        while j < i
            invariant
                i < edges@.len(),
                j <= i,
                n == serving_ids@.len(),
                edge == edges@[i as int],
                forall|b: int| 0 <= b < j ==> !(#[trigger] edges@[b].from == edge.from && edges@[b].to == edge.to),
            decreases i - j,
        {
            if edges[j].from == edge.from && edges[j].to == edge.to {
                assert(!edge_admissible(edges@, i as int, n as nat));
                return Err(Error::Infrastructure("duplicate persisted topology edge".to_owned()));
            }
            j = j + 1;
        }
        assert(edge_admissible(edges@, i as int, n as nat));
        i = i + 1;
    }
    Ok(())
}

/// In an intact topology no two edges join the same ordered pair of nodes.
pub proof fn intact_topologies_have_distinct_edges(
    serving_ids: Seq<u32>,
    edges: Seq<TopologyEdgeShape>,
    i: int,
    j: int,
)
    requires
        topology_intact(serving_ids, edges),
        0 <= i < j < edges.len(),
    ensures
        !(edges[i].from == edges[j].from && edges[i].to == edges[j].to),
{
    assert(edge_admissible(edges, j, serving_ids.len()));
    assert(!(edges[i].from == edges[j].from && edges[i].to == edges[j].to));
}

} // verus!
