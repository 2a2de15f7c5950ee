//! The mathematical model of a directed graph: the nodes in the order they
//! were registered and the edges in the order they were added.

use vstd::prelude::*;

verus! {

/// The sources of those edges of `edges` that end in `node`, in edge order.
pub open spec fn sources_into<N>(edges: Seq<(N, N)>, node: N) -> Seq<N> {
    edges.filter(|e: (N, N)| e.1 == node).map_values(|e: (N, N)| e.0)
}

/// The targets of those edges of `edges` that start in `node`, in edge order.
pub open spec fn targets_from<N>(edges: Seq<(N, N)>, node: N) -> Seq<N> {
    edges.filter(|e: (N, N)| e.0 == node).map_values(|e: (N, N)| e.1)
}

/// A graph as two insertion-ordered lists. Nothing ties the endpoints of an
/// edge to the registered nodes, and neither list is free of duplicates.
pub struct GraphModel<N> {
    pub nodes: Seq<N>,
    pub edges: Seq<(N, N)>,
}

impl<N> GraphModel<N> {
    /// The graph without nodes and without edges.
    pub open spec fn empty() -> Self {
        GraphModel { nodes: Seq::empty(), edges: Seq::empty() }
    }

    /// This graph with `node` registered last.
    pub open spec fn add_node(self, node: N) -> Self {
        GraphModel { nodes: self.nodes.push(node), edges: self.edges }
    }

    /// This graph with the edge from `from` to `to` added last.
    pub open spec fn add_edge(self, from: N, to: N) -> Self {
        GraphModel { nodes: self.nodes, edges: self.edges.push((from, to)) }
    }

    /// How many nodes are registered.
    pub open spec fn num_nodes(self) -> nat {
        self.nodes.len()
    }

    /// The node that was registered first.
    pub open spec fn start_node(self) -> N
        recommends
            self.nodes.len() > 0,
    {
        self.nodes[0]
    }

    /// The sources of the edges into `node`, in the order the edges were added.
    pub open spec fn predecessors(self, node: N) -> Seq<N> {
        sources_into(self.edges, node)
    }

    /// The targets of the edges out of `node`, in the order the edges were added.
    pub open spec fn successors(self, node: N) -> Seq<N> {
        targets_from(self.edges, node)
    }

    /// Whether some edge starts or ends in `node`.
    pub open spec fn is_endpoint(self, node: N) -> bool {
        exists|i: int|
            #![trigger self.edges[i]]
            0 <= i < self.edges.len() && (self.edges[i].0 == node || self.edges[i].1 == node)
    }
}

/// No edge, no source.
pub proof fn lemma_sources_of_no_edges<N>(node: N)
    ensures
        sources_into(Seq::<(N, N)>::empty(), node) == Seq::<N>::empty(),
{
    reveal(Seq::filter);
    assert(sources_into(Seq::<(N, N)>::empty(), node) =~= Seq::<N>::empty());
}

/// No edge, no target.
pub proof fn lemma_targets_of_no_edges<N>(node: N)
    ensures
        targets_from(Seq::<(N, N)>::empty(), node) == Seq::<N>::empty(),
{
    reveal(Seq::filter);
    assert(targets_from(Seq::<(N, N)>::empty(), node) =~= Seq::<N>::empty());
}

/// One more edge at the end adds its source at the end of the sources into
/// its target, and changes the sources into no other node.
pub proof fn lemma_sources_after_push<N>(edges: Seq<(N, N)>, edge: (N, N), node: N)
    ensures
        sources_into(edges.push(edge), node) == if edge.1 == node {
            sources_into(edges, node).push(edge.0)
        } else {
            sources_into(edges, node)
        },
{
    let keep = |e: (N, N)| e.1 == node;
    let pick = |e: (N, N)| e.0;
    edges.lemma_filter_push(edge, keep);
    if edge.1 == node {
        assert(edges.filter(keep).push(edge).map_values(pick) =~= edges.filter(keep).map_values(
            pick,
        ).push(edge.0));
    }
}

/// One more edge at the end adds its target at the end of the targets from
/// its source, and changes the targets from no other node.
pub proof fn lemma_targets_after_push<N>(edges: Seq<(N, N)>, edge: (N, N), node: N)
    ensures
        targets_from(edges.push(edge), node) == if edge.0 == node {
            targets_from(edges, node).push(edge.1)
        } else {
            targets_from(edges, node)
        },
{
    let keep = |e: (N, N)| e.0 == node;
    let pick = |e: (N, N)| e.1;
    edges.lemma_filter_push(edge, keep);
    if edge.0 == node {
        assert(edges.filter(keep).push(edge).map_values(pick) =~= edges.filter(keep).map_values(
            pick,
        ).push(edge.1));
    }
}

/// The sources found from position `at` on are the source of the edge at
/// `at`, if that edge ends in `node`, followed by those found from `at + 1` on.
pub proof fn lemma_sources_from_position<N>(edges: Seq<(N, N)>, at: int, node: N)
    requires
        0 <= at < edges.len(),
    ensures
        sources_into(edges.skip(at), node) == if edges[at].1 == node {
            seq![edges[at].0] + sources_into(edges.skip(at + 1), node)
        } else {
            sources_into(edges.skip(at + 1), node)
        },
{
    let keep = |e: (N, N)| e.1 == node;
    let pick = |e: (N, N)| e.0;
    let rest = edges.skip(at + 1);
    assert(edges.skip(at) =~= seq![edges[at]] + rest);
    rest.lemma_filter_prepend(edges[at], keep);
    if edges[at].1 == node {
        assert((seq![edges[at]] + rest.filter(keep)).map_values(pick) =~= seq![edges[at].0]
            + rest.filter(keep).map_values(pick));
    } else {
        assert(Seq::<(N, N)>::empty() + rest.filter(keep) =~= rest.filter(keep));
    }
}

/// The targets found from position `at` on are the target of the edge at
/// `at`, if that edge starts in `node`, followed by those found from `at + 1` on.
pub proof fn lemma_targets_from_position<N>(edges: Seq<(N, N)>, at: int, node: N)
    requires
        0 <= at < edges.len(),
    ensures
        targets_from(edges.skip(at), node) == if edges[at].0 == node {
            seq![edges[at].1] + targets_from(edges.skip(at + 1), node)
        } else {
            targets_from(edges.skip(at + 1), node)
        },
{
    let keep = |e: (N, N)| e.0 == node;
    let pick = |e: (N, N)| e.1;
    let rest = edges.skip(at + 1);
    assert(edges.skip(at) =~= seq![edges[at]] + rest);
    rest.lemma_filter_prepend(edges[at], keep);
    if edges[at].0 == node {
        assert((seq![edges[at]] + rest.filter(keep)).map_values(pick) =~= seq![edges[at].1]
            + rest.filter(keep).map_values(pick));
    } else {
        assert(Seq::<(N, N)>::empty() + rest.filter(keep) =~= rest.filter(keep));
    }
}

/// A node in which no edge ends has no predecessors.
pub proof fn lemma_sources_without_match<N>(edges: Seq<(N, N)>, node: N)
    requires
        forall|i: int| 0 <= i < edges.len() ==> (#[trigger] edges[i]).1 != node,
    ensures
        sources_into(edges, node) == Seq::<N>::empty(),
    decreases edges.len(),
{
    if edges.len() == 0 {
        lemma_sources_of_no_edges(node);
        assert(edges =~= Seq::<(N, N)>::empty());
    } else {
        lemma_sources_without_match(edges.drop_last(), node);
        lemma_sources_after_push(edges.drop_last(), edges.last(), node);
        assert(edges.drop_last().push(edges.last()) =~= edges);
    }
}

/// A node in which no edge starts has no successors.
pub proof fn lemma_targets_without_match<N>(edges: Seq<(N, N)>, node: N)
    requires
        forall|i: int| 0 <= i < edges.len() ==> (#[trigger] edges[i]).0 != node,
    ensures
        targets_from(edges, node) == Seq::<N>::empty(),
    decreases edges.len(),
{
    if edges.len() == 0 {
        lemma_targets_of_no_edges(node);
        assert(edges =~= Seq::<(N, N)>::empty());
    } else {
        lemma_targets_without_match(edges.drop_last(), node);
        lemma_targets_after_push(edges.drop_last(), edges.last(), node);
        assert(edges.drop_last().push(edges.last()) =~= edges);
    }
}

/// A node that is no endpoint of any edge has neither predecessors nor
/// successors.
pub proof fn lemma_no_endpoint_no_neighbours<N>(graph: GraphModel<N>, node: N)
    requires
        !graph.is_endpoint(node),
    ensures
        graph.predecessors(node) == Seq::<N>::empty(),
        graph.successors(node) == Seq::<N>::empty(),
{
    lemma_sources_without_match(graph.edges, node);
    lemma_targets_without_match(graph.edges, node);
}

/// The predecessors of `node` are the sources of the edges into `node`, one
/// for each such edge and in the order of the edges. The result gives, for
/// each predecessor, the position of its edge: the positions ascend, each
/// holds an edge into `node`, and no edge into `node` is left out.
pub proof fn lemma_predecessors_follow_edges<N>(graph: GraphModel<N>, node: N) -> (at: Seq<int>)
    ensures
        at.len() == graph.predecessors(node).len(),
        forall|k: int|
            0 <= k < at.len() ==> 0 <= #[trigger] at[k] < graph.edges.len() && graph.edges[at[k]]
                == (graph.predecessors(node)[k], node),
        forall|k: int, l: int| 0 <= k < l < at.len() ==> at[k] < at[l],
        forall|i: int|
            0 <= i < graph.edges.len() && (#[trigger] graph.edges[i]).1 == node ==> at.contains(i),
    decreases graph.edges.len(),
{
    let edges = graph.edges;
    if edges.len() == 0 {
        lemma_sources_of_no_edges(node);
        assert(edges =~= Seq::<(N, N)>::empty());
        Seq::empty()
    } else {
        let shorter = GraphModel { nodes: graph.nodes, edges: edges.drop_last() };
        let before = lemma_predecessors_follow_edges(shorter, node);
        lemma_sources_after_push(edges.drop_last(), edges.last(), node);
        assert(edges.drop_last().push(edges.last()) =~= edges);
        let at = if edges.last().1 == node {
            before.push(edges.len() - 1)
        } else {
            before
        };
        assert forall|i: int| 0 <= i < edges.len() && (#[trigger] edges[i]).1 == node implies at.contains(
            i,
        ) by {
            if i < edges.len() - 1 {
                assert(shorter.edges[i] == edges[i]);
                let k = choose|k: int| 0 <= k < before.len() && before[k] == i;
                assert(at[k] == i);
            } else {
                assert(at[at.len() - 1] == i);
            }
        }
        at
    }
}

/// The successors of `node` are the targets of the edges out of `node`, one
/// for each such edge and in the order of the edges. The result gives, for
/// each successor, the position of its edge: the positions ascend, each holds
/// an edge out of `node`, and no edge out of `node` is left out.
pub proof fn lemma_successors_follow_edges<N>(graph: GraphModel<N>, node: N) -> (at: Seq<int>)
    ensures
        at.len() == graph.successors(node).len(),
        forall|k: int|
            0 <= k < at.len() ==> 0 <= #[trigger] at[k] < graph.edges.len() && graph.edges[at[k]]
                == (node, graph.successors(node)[k]),
        forall|k: int, l: int| 0 <= k < l < at.len() ==> at[k] < at[l],
        forall|i: int|
            0 <= i < graph.edges.len() && (#[trigger] graph.edges[i]).0 == node ==> at.contains(i),
    decreases graph.edges.len(),
{
    let edges = graph.edges;
    if edges.len() == 0 {
        lemma_targets_of_no_edges(node);
        assert(edges =~= Seq::<(N, N)>::empty());
        Seq::empty()
    } else {
        let shorter = GraphModel { nodes: graph.nodes, edges: edges.drop_last() };
        let before = lemma_successors_follow_edges(shorter, node);
        lemma_targets_after_push(edges.drop_last(), edges.last(), node);
        assert(edges.drop_last().push(edges.last()) =~= edges);
        let at = if edges.last().0 == node {
            before.push(edges.len() - 1)
        } else {
            before
        };
        assert forall|i: int| 0 <= i < edges.len() && (#[trigger] edges[i]).0 == node implies at.contains(
            i,
        ) by {
            if i < edges.len() - 1 {
                assert(shorter.edges[i] == edges[i]);
                let k = choose|k: int| 0 <= k < before.len() && before[k] == i;
                assert(at[k] == i);
            } else {
                assert(at[at.len() - 1] == i);
            }
        }
        at
    }
}

} // verus!
