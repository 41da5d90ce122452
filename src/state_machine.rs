use std::hash::Hash;

use vstd::prelude::*;

use crate::command::Command;
use crate::conditional_edge::ConditionalEdge;
use crate::graph::{map_keys, Edge, Graph};
use crate::state::{lemma_enter_exit_bound, State, StateEvent};

verus! {

/// An automaton: states with enter, exit and scroll commands, joined by
/// edges that a trigger name fires.
pub type TriggerGraph<I> = Graph<I, State<I>, ConditionalEdge<I, Option<String>>>;

/// Whether an edge fires on the trigger `t`; an edge with no trigger never
/// fires.
pub open spec fn fires<I: Copy>(e: ConditionalEdge<I, Option<String>>, t: Seq<char>) -> bool {
    e.spec_trigger() is Some && e.spec_trigger()->0@ == t
}

/// Whether some edge out of `from` fires on `t`.
pub open spec fn can_fire<I: Eq + Hash + Copy>(g: TriggerGraph<I>, from: I, t: Seq<char>) -> bool {
    exists|b: I| #[trigger] g.has_edge(from, b) && fires(g.edge_map()[from][b], t)
}

/// The commands bound to the events of a state other than entering and
/// leaving, in the order x scroll, y scroll.
pub open spec fn misc_commands<I: Copy>(s: State<I>) -> Seq<Command> {
    (if s.command(StateEvent::OnScrollX) is Some {
        seq![s.command(StateEvent::OnScrollX)->0]
    } else {
        Seq::<Command>::empty()
    }) + (if s.command(StateEvent::OnScrollY) is Some {
        seq![s.command(StateEvent::OnScrollY)->0]
    } else {
        Seq::<Command>::empty()
    })
}

/// The cursor of an automaton: the identifier of the current state.
#[derive(Debug)]
pub struct StateMachine<I> {
    current_state: I,
}

impl<I: Eq + Hash + Copy> StateMachine<I> {
    pub closed spec fn spec_current(&self) -> I {
        self.current_state
    }

    pub fn new(current_state: I) -> (r: Self)
        ensures
            r.spec_current() == current_state,
    {
        StateMachine { current_state }
    }

    pub fn current_state(&self) -> (r: &I)
        ensures
            *r == self.spec_current(),
    {
        &self.current_state
    }

    /// Follows the first edge out of the current state that fires on
    /// `trigger`, and returns the exit command of the state left and the
    /// enter command of the state entered, to be run in that order. With
    /// no such edge nothing changes and the result is `None`.
    pub fn process<'a>(&mut self, state_graph: &'a TriggerGraph<I>, trigger: &String) -> (r:
        Option<(&'a Command, &'a Command)>)
        requires
            state_graph.wf(),
            state_graph.node_map().contains_key(old(self).spec_current()),
        ensures
            r is None <==> !can_fire(*state_graph, old(self).spec_current(), trigger@),
            r is None ==> *final(self) == *old(self),
            r matches Some((exit, enter)) ==> {
                let from = old(self).spec_current();
                let to = final(self).spec_current();
                &&& state_graph.has_edge(from, to)
                &&& fires(state_graph.edge_map()[from][to], trigger@)
                &&& state_graph.node_map().contains_key(to)
                &&& state_graph.node_map()[from].command(StateEvent::OnExit) == Some(*exit)
                &&& state_graph.node_map()[to].command(StateEvent::OnEnter) == Some(*enter)
            },
    {
        let ghost from = self.current_state;
        let edges = match state_graph.get_edges_from(&self.current_state) {
            Some(m) => m,
            None => {
                return None;
            },
        };
        let targets = map_keys(edges);
        let mut k: usize = 0;
        while k < targets.len()
            invariant
                state_graph.wf(),
                from == self.current_state,
                from == old(self).spec_current(),
                state_graph.node_map().contains_key(from),
                edges@ == state_graph.edge_map()[from],
                targets@.to_set() == edges@.dom(),
                k <= targets@.len(),
                forall|j: int| 0 <= j < k ==> !fires(
                    state_graph.edge_map()[from][#[trigger] targets@[j]],
                    trigger@,
                ),
            decreases targets@.len() - k,
        {
            let to = targets[k];
            proof {
                assert(targets@.to_set().contains(to));
            }
            let edge = match edges.get(&to) {
                Some(e) => e,
                None => {
                    return None;
                },
            };
            let hit = match edge.trigger() {
                Some(t) => *t == *trigger,
                None => false,
            };
            assert(edges@.contains_key(to) && edges@[to] == *edge);
            assert(state_graph.has_edge(from, to));
            assert(hit == fires(*edge, trigger@));
            if hit {
                let left = match state_graph.get_node(&self.current_state) {
                    Some(s) => s,
                    None => {
                        return None;
                    },
                };
                proof {
                    lemma_enter_exit_bound(*left);
                }
                let exit = match left.get_command(&StateEvent::OnExit) {
                    Some(c) => c,
                    None => {
                        return None;
                    },
                };
                self.current_state = edge.next();
                assert(state_graph.has_edge(from, to));
                let entered = match state_graph.get_node(&self.current_state) {
                    Some(s) => s,
                    None => {
                        return None;
                    },
                };
                proof {
                    lemma_enter_exit_bound(*entered);
                }
                let enter = match entered.get_command(&StateEvent::OnEnter) {
                    Some(c) => c,
                    None => {
                        return None;
                    },
                };
                assert(self.current_state == to);
                assert(state_graph.has_edge(from, to) && fires(state_graph.edge_map()[from][to], trigger@));
                return Some((exit, enter));
            }
            k = k + 1;
        }
        proof {
            assert forall|b: I| #[trigger] state_graph.has_edge(from, b) implies !fires(
                state_graph.edge_map()[from][b],
                trigger@,
            ) by {
                assert(targets@.to_set().contains(b));
                let j = choose|j: int| 0 <= j < targets@.len() && targets@[j] == b;
            }
        }
        None
    }

    /// The commands the current state binds to events other than entering
    /// and leaving, to be run once per tick; none when the current state is
    /// not in the graph.
    pub fn trigger_misc_events<'a>(&self, state_graph: &'a TriggerGraph<I>) -> (r: Vec<&'a Command>)
        requires
            state_graph.wf(),
        ensures
            state_graph.node_map().contains_key(self.spec_current()) ==> r@.map_values(
                |c: &Command| *c,
            ) == misc_commands(state_graph.node_map()[self.spec_current()]),
            !state_graph.node_map().contains_key(self.spec_current()) ==> r@.len() == 0,
    {
        let mut out: Vec<&'a Command> = Vec::new();
        match state_graph.get_node(&self.current_state) {
            Some(s) => {
                match s.get_command(&StateEvent::OnScrollX) {
                    Some(c) => out.push(c),
                    None => {},
                }
                match s.get_command(&StateEvent::OnScrollY) {
                    Some(c) => out.push(c),
                    None => {},
                }
                assert(out@.map_values(|c: &Command| *c) =~= misc_commands(*s));
            },
            None => {},
        }
        out
    }
}

} // verus!
