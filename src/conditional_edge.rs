use vstd::prelude::*;

use crate::graph::Edge;

verus! {

/// An automaton edge: the state it leads to and the trigger that fires it.
#[derive(Debug)]
pub struct ConditionalEdge<I, J> {
    next: I,
    pub trigger: J,
}

impl<I: Copy, J> ConditionalEdge<I, J> {
    pub closed spec fn spec_target(&self) -> I {
        self.next
    }

    pub closed spec fn spec_trigger(&self) -> J {
        self.trigger
    }

    pub fn new(next: I, trigger: J) -> (r: Self)
        ensures
            r.spec_target() == next,
            r.spec_trigger() == trigger,
    {
        ConditionalEdge { next, trigger }
    }

    pub fn trigger(&self) -> (r: &J)
        ensures
            *r == self.spec_trigger(),
    {
        &self.trigger
    }
}

impl<I: Copy, J> Edge<I> for ConditionalEdge<I, J> {
    closed spec fn spec_next(&self) -> I {
        self.next
    }

    fn next(&self) -> (r: I) {
        self.next
    }
}

/// The edge's target, as the graph sees it.
pub proof fn lemma_edge_next_is_target<I: Copy, J>(e: ConditionalEdge<I, J>)
    ensures
        e.spec_next() == e.spec_target(),
{
}

} // verus!
