//! The bounded, hop-by-hop expansion of a cognitive cycle's association graph: which
//! frontier nodes a hop loads and how many edges it may still fetch.
use vstd::prelude::*;

verus! {

/// The kind of node an association joins.
#[derive(Debug, Clone, Copy, PartialEq, Eq, Structural, PartialOrd, Ord, Hash)]
pub enum NodeKind {
    Memory,
    Entity,
    Source,
    Artifact,
}

/// A node of the association graph.
#[derive(Debug, Clone, Copy, PartialEq, Eq, Structural, PartialOrd, Ord, Hash)]
pub struct NodeRef {
    pub kind: NodeKind,
    pub id: u128,
}

/// The nodes one hop loads, in frontier order, and how many edges it may fetch.
pub struct HopPlan {
    pub nodes: Vec<NodeRef>,
    pub edge_limit: usize,
}

/// The frontier nodes not loaded yet, in frontier order.
pub open spec fn pending_nodes(frontier: Seq<NodeRef>, loaded: Set<NodeRef>) -> Seq<NodeRef> {
    frontier.filter_map(|n: NodeRef| if loaded.contains(n) { None } else { Some(n) })
}

/// The next hop of an expansion that has loaded `loaded` and fetched `edges` edges:
/// none when nothing is pending or a budget is spent; otherwise the pending nodes,
/// cut to the states left, and the edges left.
pub open spec fn spec_plan_hop(
    frontier: Seq<NodeRef>,
    loaded: Set<NodeRef>,
    edges: nat,
    max_edges: nat,
    max_states: nat,
) -> Option<(Seq<NodeRef>, nat)> {
    let pending = pending_nodes(frontier, loaded);
    if pending.len() == 0 || edges >= max_edges || loaded.len() >= max_states {
        None
    } else {
        let room = (max_states - loaded.len()) as nat;
        Some(
            (
                if pending.len() <= room {
                    pending
                } else {
                    pending.take(room as int)
                },
                (max_edges - edges) as nat,
            ),
        )
    }
}

/// What a cycle's expansion has done so far: the nodes whose edges were loaded, each
/// once, and the number of edges fetched.
pub struct ExpansionState {
    loaded: Vec<NodeRef>,
    edges: usize,
}

impl ExpansionState {
    /// The nodes whose edges were loaded.
    pub closed spec fn loaded_nodes(&self) -> Set<NodeRef> {
        self.loaded@.to_set()
    }

    /// The number of edges fetched so far.
    pub closed spec fn edge_count(&self) -> nat {
        self.edges as nat
    }

    /// Each loaded node is recorded once.
    pub closed spec fn wf(&self) -> bool {
        self.loaded@.no_duplicates()
    }

    /// An expansion that has loaded nothing.
    pub fn new() -> (state: ExpansionState)
        ensures
            state.wf(),
            state.loaded_nodes() == Set::<NodeRef>::empty(),
            state.edge_count() == 0,
    {
        let state = ExpansionState { loaded: Vec::new(), edges: 0 };
        assert(state.loaded@.to_set() =~= Set::<NodeRef>::empty());
        state
    }

    /// The number of loaded nodes.
    pub fn loaded_count(&self) -> (n: usize)
        requires
            self.wf(),
        ensures
            n == self.loaded_nodes().len(),
    {
        proof {
            self.loaded@.unique_seq_to_set();
        }
        self.loaded.len()
    }

    /// The number of edges fetched so far.
    pub fn edges(&self) -> (n: usize)
        ensures
            n == self.edge_count(),
    {
        self.edges
    }

    /// Whether `node` was loaded.
    pub fn is_loaded(&self, node: NodeRef) -> (loaded: bool)
        ensures
            loaded == self.loaded_nodes().contains(node),
    {
        let mut i: usize = 0;
        while i < self.loaded.len()
            invariant
                i <= self.loaded@.len(),
                forall|j: int| 0 <= j < i ==> #[trigger] self.loaded@[j] != node,
            decreases self.loaded@.len() - i,
        {
            if self.loaded[i] == node {
                assert(self.loaded@.contains(node));
                return true;
            }
            i = i + 1;
        }
        false
    }

    /// The next hop from `frontier`, within `max_edges` edges and `max_states` loaded
    /// nodes in all; none when the expansion stops.
    pub fn plan_hop(&self, frontier: &[NodeRef], max_edges: usize, max_states: usize) -> (plan:
        Option<HopPlan>)
        requires
            self.wf(),
        ensures
            match spec_plan_hop(
                frontier@,
                self.loaded_nodes(),
                self.edge_count(),
                max_edges as nat,
                max_states as nat,
            ) {
                None => plan is None,
                Some((nodes, limit)) => plan matches Some(p) && p.nodes@ == nodes && p.edge_limit
                    == limit,
            },
    {
        let ghost step = |n: NodeRef| if self.loaded_nodes().contains(n) { None } else { Some(n) };
        let mut pending: Vec<NodeRef> = Vec::new();
        let mut i: usize = 0;
        while i < frontier.len()
            invariant
                i <= frontier@.len(),
                step == (|n: NodeRef| if self.loaded_nodes().contains(n) { None } else { Some(n) }),
                pending@ == frontier@.take(i as int).filter_map(step),
            decreases frontier@.len() - i,
        {
            let node = frontier[i];
            proof {
                assert(frontier@.take(i + 1).drop_last() =~= frontier@.take(i as int));
                assert(frontier@.take(i + 1).last() == node);
            }
            if !self.is_loaded(node) {
                pending.push(node);
            }
            i = i + 1;
        }
        proof {
            assert(frontier@.take(frontier@.len() as int) =~= frontier@);
        }
        let loaded = self.loaded_count();
        if pending.len() == 0 || self.edges >= max_edges || loaded >= max_states {
            return None;
        }
        pending.truncate(max_states - loaded);
        Some(HopPlan { nodes: pending, edge_limit: max_edges - self.edges })
    }

    /// Records a hop that loaded `nodes` and fetched `fetched` edges.
    pub fn record_hop(&mut self, nodes: &[NodeRef], fetched: usize)
        requires
            old(self).wf(),
            old(self).edge_count() + fetched <= usize::MAX,
        ensures
            final(self).wf(),
            final(self).loaded_nodes() == old(self).loaded_nodes().union(nodes@.to_set()),
            final(self).edge_count() == old(self).edge_count() + fetched,
    {
        let ghost start = self.loaded@;
        let mut i: usize = 0;
        while i < nodes.len()
            invariant
                i <= nodes@.len(),
                self.loaded@.no_duplicates(),
                self.loaded@.to_set() == start.to_set().union(nodes@.take(i as int).to_set()),
                self.edges == old(self).edges,
            decreases nodes@.len() - i,
        {
            let node = nodes[i];
            proof {
                assert(nodes@.take(i + 1) =~= nodes@.take(i as int).push(node));
                nodes@.take(i as int).lemma_push_to_set_commute(node);
            }
            if !self.is_loaded(node) {
                let ghost before = self.loaded@;
                self.loaded.push(node);
                proof {
                    before.lemma_push_to_set_commute(node);
                    assert forall|a: int, b: int|
                        0 <= a < self.loaded@.len() && 0 <= b < self.loaded@.len() && a != b implies self.loaded@[a]
                        != self.loaded@[b] by {
                        if a == before.len() as int {
                            assert(before.contains(before[b]));
                        } else if b == before.len() as int {
                            assert(before.contains(before[a]));
                        }
                    }
                    assert(self.loaded@.to_set() =~= start.to_set().union(nodes@.take(i + 1).to_set()));
                }
            } else {
                proof {
                    assert(self.loaded@.to_set() =~= start.to_set().union(nodes@.take(i + 1).to_set()));
                }
            }
            i = i + 1;
        }
        proof {
            assert(nodes@.take(nodes@.len() as int) =~= nodes@);
        }
        self.edges = self.edges + fetched;
    }
}

/// A hop never reloads a node, and a hop taken as planned keeps the expansion within
/// both budgets: after loading the planned nodes and fetching at most the planned
/// edges, at most `max_states` nodes are loaded and at most `max_edges` edges fetched.
pub proof fn planned_hops_stay_within_budgets(
    loaded: Set<NodeRef>,
    edges: nat,
    frontier: Seq<NodeRef>,
    max_edges: nat,
    max_states: nat,
    fetched: nat,
)
    requires
        loaded.finite(),
        spec_plan_hop(frontier, loaded, edges, max_edges, max_states) matches Some((nodes, limit))
            && fetched <= limit,
    ensures
        spec_plan_hop(frontier, loaded, edges, max_edges, max_states) matches Some((nodes, _)) && loaded.union(
            nodes.to_set(),
        ).len() <= max_states && edges + fetched <= max_edges,
        spec_plan_hop(frontier, loaded, edges, max_edges, max_states) matches Some((nodes, _)) && forall|n: NodeRef|
            #[trigger] nodes.contains(n) ==> !loaded.contains(n),
{
    let (nodes, limit) = spec_plan_hop(frontier, loaded, edges, max_edges, max_states)->Some_0;
    nodes.lemma_cardinality_of_set();
    vstd::seq_lib::seq_to_set_is_finite(nodes);
    vstd::set_lib::lemma_len_union(loaded, nodes.to_set());
    let step = |n: NodeRef| if loaded.contains(n) { None } else { Some(n) };
    let pending = pending_nodes(frontier, loaded);
    assert forall|n: NodeRef| #[trigger] nodes.contains(n) implies !loaded.contains(n) by {
        let i = choose|i: int| 0 <= i < nodes.len() && nodes[i] == n;
        assert(pending[i] == n);
        assert(pending.contains(n));
        frontier.lemma_filter_map_contains(step, n);
        let t = choose|t: NodeRef| #[trigger] frontier.contains(t) && step(t) == Some(n);
    }
}

} // verus!
