//! Graphs as the outcome of a history of calls: what the order of the calls
//! decides and what it does not.

use vstd::prelude::*;
use crate::model::GraphModel;

verus! {

/// One call that changes a graph.
pub enum Change<N> {
    /// Registers a node.
    AddNode(N),
    /// Adds the edge from the first node to the second.
    AddEdge(N, N),
}

impl<N> GraphModel<N> {
    /// This graph after one call.
    pub open spec fn apply(self, change: Change<N>) -> Self {
        match change {
            Change::AddNode(node) => self.add_node(node),
            Change::AddEdge(from, to) => self.add_edge(from, to),
        }
    }
}

/// The graph that a history of calls builds from the empty graph.
pub open spec fn replay<N>(history: Seq<Change<N>>) -> GraphModel<N>
    decreases history.len(),
{
    if history.len() == 0 {
        GraphModel::empty()
    } else {
        replay(history.drop_last()).apply(history.last())
    }
}

/// The nodes that a history registers, in the order of the calls.
pub open spec fn registered<N>(history: Seq<Change<N>>) -> Seq<N> {
    history.filter(|c: Change<N>| c is AddNode).map_values(|c: Change<N>| c->AddNode_0)
}

/// The edges that a history adds, in the order of the calls.
pub open spec fn connected<N>(history: Seq<Change<N>>) -> Seq<(N, N)> {
    history.filter(|c: Change<N>| c is AddEdge).map_values(
        |c: Change<N>| (c->AddEdge_0, c->AddEdge_1),
    )
}

/// A graph holds the nodes that were registered and the edges that were
/// added, each in the order of the calls; how the two kinds of call were
/// interleaved leaves no trace.
pub proof fn lemma_replay_keeps_both_orders<N>(history: Seq<Change<N>>)
    ensures
        replay(history).nodes == registered(history),
        replay(history).edges == connected(history),
    decreases history.len(),
{
    let is_node = |c: Change<N>| c is AddNode;
    let is_edge = |c: Change<N>| c is AddEdge;
    let node_of = |c: Change<N>| c->AddNode_0;
    let edge_of = |c: Change<N>| (c->AddEdge_0, c->AddEdge_1);
    if history.len() == 0 {
        reveal(Seq::filter);
        assert(registered(history) =~= Seq::<N>::empty());
        assert(connected(history) =~= Seq::<(N, N)>::empty());
    } else {
        let before = history.drop_last();
        let last = history.last();
        lemma_replay_keeps_both_orders(before);
        assert(before.push(last) =~= history);
        before.lemma_filter_push(last, is_node);
        before.lemma_filter_push(last, is_edge);
        match last {
            Change::AddNode(node) => {
                assert(before.filter(is_node).push(last).map_values(node_of) =~= before.filter(
                    is_node,
                ).map_values(node_of).push(node));
            },
            Change::AddEdge(from, to) => {
                assert(before.filter(is_edge).push(last).map_values(edge_of) =~= before.filter(
                    is_edge,
                ).map_values(edge_of).push((from, to)));
            },
        }
    }
}

/// The number of nodes is the number of calls that registered a node,
/// whatever edges were added in between.
pub proof fn lemma_num_nodes_counts_registrations<N>(history: Seq<Change<N>>)
    ensures
        replay(history).num_nodes() == history.filter(|c: Change<N>| c is AddNode).len(),
{
    lemma_replay_keeps_both_orders(history);
}

/// Registering a node raises the number of nodes by one, and adding an edge
/// leaves it as it is.
pub proof fn lemma_num_nodes_after_change<N>(graph: GraphModel<N>, change: Change<N>)
    ensures
        graph.apply(change).num_nodes() == graph.num_nodes() + if change is AddNode {
            1nat
        } else {
            0nat
        },
{
}

/// Once a graph has a node, no further call changes its start node.
pub proof fn lemma_start_node_is_stable<N>(graph: GraphModel<N>, change: Change<N>)
    requires
        graph.num_nodes() > 0,
    ensures
        graph.apply(change).num_nodes() > 0,
        graph.apply(change).start_node() == graph.start_node(),
{
}

/// The start node is the node of the first call that registered one: the
/// edges added before it and all the calls after it make no difference.
pub proof fn lemma_start_node_is_first_registered<N>(history: Seq<Change<N>>, first: int)
    requires
        0 <= first < history.len(),
        history[first] is AddNode,
        forall|j: int| 0 <= j < first ==> #[trigger] history[j] is AddEdge,
    ensures
        replay(history).num_nodes() > 0,
        replay(history).start_node() == history[first]->AddNode_0,
    decreases history.len(),
{
    let before = history.drop_last();
    if first == history.len() - 1 {
        lemma_replay_keeps_both_orders(before);
        assert forall|j: int| 0 <= j < before.len() implies !(#[trigger] before[j] is AddNode) by {
            assert(history[j] is AddEdge);
        }
        lemma_none_registered(before);
    } else {
        lemma_start_node_is_first_registered(before, first);
        lemma_start_node_is_stable(replay(before), history.last());
    }
}

/// A history of edges registers no node.
proof fn lemma_none_registered<N>(history: Seq<Change<N>>)
    requires
        forall|j: int| 0 <= j < history.len() ==> !(#[trigger] history[j] is AddNode),
    ensures
        registered(history) == Seq::<N>::empty(),
    decreases history.len(),
{
    let is_node = |c: Change<N>| c is AddNode;
    if history.len() == 0 {
        reveal(Seq::filter);
        assert(registered(history) =~= Seq::<N>::empty());
    } else {
        lemma_none_registered(history.drop_last());
        history.drop_last().lemma_filter_push(history.last(), is_node);
        assert(history.drop_last().push(history.last()) =~= history);
    }
}

} // verus!
