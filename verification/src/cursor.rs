//! Cursors that walk an edge list once and hand out, one at a time, the
//! neighbours of a node.

use vstd::prelude::*;
use crate::model::{
    lemma_sources_from_position, lemma_sources_of_no_edges, lemma_targets_from_position,
    lemma_targets_of_no_edges, sources_into, targets_from,
};

verus! {

/// Walks an edge list and yields the targets of the edges that start in one node.
pub struct SuccIter<'a> {
    idx: usize,
    target: usize,
    data: &'a Vec<(usize, usize)>,
}

/// Walks an edge list and yields the sources of the edges that end in one node.
pub struct PredIter<'a> {
    idx: usize,
    target: usize,
    data: &'a Vec<(usize, usize)>,
}

impl<'a> SuccIter<'a> {
    #[verifier::type_invariant]
    spec fn within_bounds(self) -> bool {
        self.idx <= self.data@.len()
    }

    /// The edge list that is walked.
    pub closed spec fn edges(&self) -> Seq<(usize, usize)> {
        self.data@
    }

    /// The node whose successors are looked for.
    pub closed spec fn node(&self) -> usize {
        self.target
    }

    /// How many edges have been passed.
    pub closed spec fn position(&self) -> int {
        self.idx as int
    }

    /// What the cursor has yet to yield.
    pub open spec fn remaining(&self) -> Seq<usize> {
        targets_from(self.edges().skip(self.position()), self.node())
    }

    /// A cursor at the start of `data` that looks for the successors of `node`.
    pub fn new(data: &'a Vec<(usize, usize)>, node: usize) -> (it: Self)
        ensures
            it.edges() == data@,
            it.node() == node,
            it.position() == 0,
            it.remaining() == targets_from(data@, node),
    {
        assert(data@.skip(0) =~= data@);
        SuccIter { idx: 0, target: node, data }
    }

    /// Moves past the next edge that starts in the node and yields its
    /// target; at the end of the list yields `None` and stays there.
    pub fn next(&mut self) -> (r: Option<usize>)
        ensures
            final(self).edges() == old(self).edges(),
            final(self).node() == old(self).node(),
            old(self).position() <= final(self).position() <= old(self).edges().len(),
            match r {
                Some(to) => {
                    &&& old(self).position() < final(self).position()
                    &&& old(self).edges()[final(self).position() - 1] == (old(self).node(), to)
                    &&& forall|j: int|
                        old(self).position() <= j < final(self).position() - 1 ==> (
                        #[trigger] old(self).edges()[j]).0 != old(self).node()
                    &&& old(self).remaining().len() > 0
                    &&& to == old(self).remaining()[0]
                    &&& final(self).remaining() == old(self).remaining().drop_first()
                },
                None => {
                    &&& final(self).position() == old(self).edges().len()
                    &&& forall|j: int|
                        old(self).position() <= j < old(self).edges().len() ==> (
                        #[trigger] old(self).edges()[j]).0 != old(self).node()
                    &&& old(self).remaining() == Seq::<usize>::empty()
                    &&& final(self).remaining() == Seq::<usize>::empty()
                },
            },
    {
        proof {
            use_type_invariant(&*self);
        }
        loop
            invariant
                self.data == old(self).data,
                self.target == old(self).target,
                old(self).idx <= self.idx <= self.data@.len(),
                forall|j: int|
                    old(self).idx <= j < self.idx ==> (#[trigger] self.data@[j]).0 != self.target,
                self.remaining() == old(self).remaining(),
            decreases self.data@.len() - self.idx,
        {
            if self.idx == self.data.len() {
                proof {
                    assert(self.data@.skip(self.idx as int) =~= Seq::<(usize, usize)>::empty());
                    lemma_targets_of_no_edges(self.target);
                }
                return None;
            }
            proof {
                lemma_targets_from_position(self.data@, self.idx as int, self.target);
            }
            if self.data[self.idx].0 == self.target {
                let rv = Some(self.data[self.idx].1);
                self.idx += 1;
                proof {
                    let rest = targets_from(self.data@.skip(self.idx as int), self.target);
                    assert((seq![rv->0] + rest).drop_first() =~= rest);
                }
                return rv;
            } else {
                self.idx += 1;
            }
        }
    }
}

impl<'a> PredIter<'a> {
    #[verifier::type_invariant]
    spec fn within_bounds(self) -> bool {
        self.idx <= self.data@.len()
    }

    /// The edge list that is walked.
    pub closed spec fn edges(&self) -> Seq<(usize, usize)> {
        self.data@
    }

    /// The node whose predecessors are looked for.
    pub closed spec fn node(&self) -> usize {
        self.target
    }

    /// How many edges have been passed.
    pub closed spec fn position(&self) -> int {
        self.idx as int
    }

    /// What the cursor has yet to yield.
    pub open spec fn remaining(&self) -> Seq<usize> {
        sources_into(self.edges().skip(self.position()), self.node())
    }

    /// A cursor at the start of `data` that looks for the predecessors of `node`.
    pub fn new(data: &'a Vec<(usize, usize)>, node: usize) -> (it: Self)
        ensures
            it.edges() == data@,
            it.node() == node,
            it.position() == 0,
            it.remaining() == sources_into(data@, node),
    {
        assert(data@.skip(0) =~= data@);
        PredIter { idx: 0, target: node, data }
    }

    /// Moves past the next edge that ends in the node and yields its
    /// source; at the end of the list yields `None` and stays there.
    pub fn next(&mut self) -> (r: Option<usize>)
        ensures
            final(self).edges() == old(self).edges(),
            final(self).node() == old(self).node(),
            old(self).position() <= final(self).position() <= old(self).edges().len(),
            match r {
                Some(from) => {
                    &&& old(self).position() < final(self).position()
                    &&& old(self).edges()[final(self).position() - 1] == (from, old(self).node())
                    &&& forall|j: int|
                        old(self).position() <= j < final(self).position() - 1 ==> (
                        #[trigger] old(self).edges()[j]).1 != old(self).node()
                    &&& old(self).remaining().len() > 0
                    &&& from == old(self).remaining()[0]
                    &&& final(self).remaining() == old(self).remaining().drop_first()
                },
                None => {
                    &&& final(self).position() == old(self).edges().len()
                    &&& forall|j: int|
                        old(self).position() <= j < old(self).edges().len() ==> (
                        #[trigger] old(self).edges()[j]).1 != old(self).node()
                    &&& old(self).remaining() == Seq::<usize>::empty()
                    &&& final(self).remaining() == Seq::<usize>::empty()
                },
            },
    {
        proof {
            use_type_invariant(&*self);
        }
        loop
            invariant
                self.data == old(self).data,
                self.target == old(self).target,
                old(self).idx <= self.idx <= self.data@.len(),
                forall|j: int|
                    old(self).idx <= j < self.idx ==> (#[trigger] self.data@[j]).1 != self.target,
                self.remaining() == old(self).remaining(),
            decreases self.data@.len() - self.idx,
        {
            if self.idx == self.data.len() {
                proof {
                    assert(self.data@.skip(self.idx as int) =~= Seq::<(usize, usize)>::empty());
                    lemma_sources_of_no_edges(self.target);
                }
                return None;
            }
            proof {
                lemma_sources_from_position(self.data@, self.idx as int, self.target);
            }
            if self.data[self.idx].1 == self.target {
                let rv = Some(self.data[self.idx].0);
                self.idx += 1;
                proof {
                    let rest = sources_into(self.data@.skip(self.idx as int), self.target);
                    assert((seq![rv->0] + rest).drop_first() =~= rest);
                }
                return rv;
            } else {
                self.idx += 1;
            }
        }
    }
}


} // verus!
