//! A graph kept as a list of nodes and a flat list of edges, queried by
//! scanning the edges.

use vstd::prelude::*;
use vstd::std_specs::vec::axiom_spec_into_iter;
use crate::cursor::{PredIter, SuccIter};
use crate::graph::{Graph, GraphPredecessors, GraphSuccessors};
use crate::model::GraphModel;

verus! {

/// Nodes and edges in the order they were added. Nodes and edges may repeat,
/// and an edge may name a node that was never registered.
#[derive(Debug)]
pub struct SuperMir {
    nodes: Vec<usize>,
    edges: Vec<(usize, usize)>,
}

impl View for SuperMir {
    type V = GraphModel<usize>;

    closed spec fn view(&self) -> GraphModel<usize> {
        GraphModel { nodes: self.nodes@, edges: self.edges@ }
    }
}

impl SuperMir {
    /// A graph without nodes and without edges.
    pub fn new() -> (g: Self)
        ensures
            g@ == GraphModel::<usize>::empty(),
    {
        SuperMir { nodes: Vec::new(), edges: Vec::new() }
    }

    /// Appends the edge from `from` to `to`, whether or not the two are
    /// registered nodes.
    pub fn add_edge(&mut self, from: usize, to: usize)
        ensures
            final(self)@ == old(self)@.add_edge(from, to),
    {
        self.edges.push((from, to));
    }

    /// Registers `node`, whether or not it is registered already.
    pub fn add_node(&mut self, node: usize)
        ensures
            final(self)@ == old(self)@.add_node(node),
    {
        self.nodes.push(node);
    }
}

impl<'g> GraphPredecessors<'g> for SuperMir {
    type Item = usize;

    type Iter = std::vec::IntoIter<usize>;
}

impl<'g> GraphSuccessors<'g> for SuperMir {
    type Item = usize;

    type Iter = std::vec::IntoIter<usize>;
}

impl Graph for SuperMir {
    type Node = usize;

    open spec fn model(&self) -> GraphModel<usize> {
        self@
    }

    fn num_nodes(&self) -> (n: usize) {
        self.nodes.len()
    }

    fn start_node(&self) -> (start: usize) {
        self.nodes[0]
    }

    fn predecessors<'graph>(&'graph self, node: usize) -> (it: std::vec::IntoIter<usize>) {
        let mut scan = PredIter::new(&self.edges, node);
        let mut found: Vec<usize> = Vec::new();
        loop
            invariant
                scan.edges() == self.edges@,
                scan.node() == node,
                0 <= scan.position() <= self.edges@.len(),
                found@ + scan.remaining() == self@.predecessors(node),
            ensures
                found@ == self@.predecessors(node),
            decreases self.edges@.len() - scan.position(),
        {
            match scan.next() {
                Some(from) => {
                    found.push(from);
                },
                None => {
                    break ;
                },
            }
        }
        proof {
            axiom_spec_into_iter(found);
        }
        found.into_iter()
    }

    fn successors<'graph>(&'graph self, node: usize) -> (it: std::vec::IntoIter<usize>) {
        let mut scan = SuccIter::new(&self.edges, node);
        let mut found: Vec<usize> = Vec::new();
        loop
            invariant
                scan.edges() == self.edges@,
                scan.node() == node,
                0 <= scan.position() <= self.edges@.len(),
                found@ + scan.remaining() == self@.successors(node),
            ensures
                found@ == self@.successors(node),
            decreases self.edges@.len() - scan.position(),
        {
            match scan.next() {
                Some(to) => {
                    found.push(to);
                },
                None => {
                    break ;
                },
            }
        }
        proof {
            axiom_spec_into_iter(found);
        }
        found.into_iter()
    }
}

} // verus!
