//! The queries that every directed-graph representation answers.

use vstd::prelude::*;
use vstd::std_specs::iter::IteratorSpec;
use crate::model::GraphModel;
use crate::node::NodeIndex;

verus! {

/// The type of the nodes that `predecessors` yields, and of the iterator that
/// yields them while the graph is borrowed for `'graph`.
pub trait GraphPredecessors<'graph> {
    type Item;

    type Iter: Iterator<Item = Self::Item>;
}

/// The type of the nodes that `successors` yields, and of the iterator that
/// yields them while the graph is borrowed for `'graph`.
pub trait GraphSuccessors<'graph> {
    type Item;

    type Iter: Iterator<Item = Self::Item>;
}

/// A directed graph that can be asked for its size, its first node and the
/// neighbours of a node. Every query leaves the graph as it is.
pub trait Graph where
    Self: for<'graph> GraphPredecessors<'graph, Item = <Self as Graph>::Node>,
    Self: for<'graph> GraphSuccessors<'graph, Item = <Self as Graph>::Node>,
{
    type Node: NodeIndex;

    /// The nodes and edges that this value holds, in insertion order.
    spec fn model(&self) -> GraphModel<Self::Node>;

    /// The number of registered nodes.
    fn num_nodes(&self) -> (n: usize)
        ensures
            n == self.model().num_nodes(),
    ;

    /// The node that was registered first. A graph without nodes has none:
    /// the caller sees to it that one is registered.
    fn start_node(&self) -> (start: Self::Node)
        requires
            self.model().num_nodes() > 0,
        ensures
            start == self.model().start_node(),
    ;

    /// Yields the source of every edge into `node`, in the order in which the
    /// edges were added. The iterator is finite, computed anew by each call,
    /// and fit to drive a `for` loop.
    fn predecessors<'graph>(&'graph self, node: Self::Node) -> (it: <Self as GraphPredecessors<
        'graph,
    >>::Iter)
        ensures
            it.obeys_prophetic_iter_laws(),
            it.decrease() is Some,
            it.initial_value_relation(&it),
            it.remaining() == self.model().predecessors(node),
    ;

    /// Yields the target of every edge out of `node`, in the order in which
    /// the edges were added. The iterator is finite, computed anew by each
    /// call, and fit to drive a `for` loop.
    fn successors<'graph>(&'graph self, node: Self::Node) -> (it: <Self as GraphSuccessors<
        'graph,
    >>::Iter)
        ensures
            it.obeys_prophetic_iter_laws(),
            it.decrease() is Some,
            it.initial_value_relation(&it),
            it.remaining() == self.model().successors(node),
    ;
}

} // verus!
