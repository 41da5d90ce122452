use vstd::prelude::*;

use crate::command::Command;
use crate::config::{Config, StateIndex};
use crate::state_machine::{can_fire, fires, StateMachine};
use crate::state::StateEvent;

verus! {

/// Whether a tick acts on its classification: the vote is confident, both
/// positions name entries, and the sign voted for equals the sign observed
/// this tick.
pub open spec fn step_acts(config: Config, similar_index: usize, probable_index: usize, confident: bool) -> bool {
    let e = config.spec_dictionary().entries();
    &&& confident
    &&& similar_index < e.len()
    &&& probable_index < e.len()
    &&& e[similar_index as int].1.spec_eq(&e[probable_index as int].1)
}

/// The decision of one tick on which a sign was observed. `similar_index`
/// is the dictionary position of the observed sign, `probable_index` the
/// position the vote favours, and `confident` whether its probability
/// exceeds the configured threshold. When the tick acts, the name of the
/// favoured sign is fed to the machine as a trigger; the result is the
/// exit and enter commands to run, as `StateMachine::process` gives them.
pub fn gesture_step<'a>(
    config: &'a Config,
    machine: &mut StateMachine<StateIndex>,
    similar_index: usize,
    probable_index: usize,
    confident: bool,
) -> (r: Option<(&'a Command, &'a Command)>)
    requires
        config.wf(),
        config.spec_graph().node_map().contains_key(old(machine).spec_current()),
    ensures
        !step_acts(*config, similar_index, probable_index, confident) ==> r is None && *final(machine) == *old(machine),
        step_acts(*config, similar_index, probable_index, confident) ==> {
            let g = config.spec_graph();
            let t = config.spec_dictionary().entries()[probable_index as int].0;
            let from = old(machine).spec_current();
            let to = final(machine).spec_current();
            &&& r is None <==> !can_fire(g, from, t)
            &&& r is None ==> *final(machine) == *old(machine)
            &&& r matches Some((exit, enter)) ==> {
                &&& g.has_edge(from, to)
                &&& fires(g.edge_map()[from][to], t)
                &&& g.node_map()[from].command(StateEvent::OnExit) == Some(*exit)
                &&& g.node_map()[to].command(StateEvent::OnEnter) == Some(*enter)
            }
        },
{
    if !confident {
        return None;
    }
    let dictionary = config.sign_dictionary();
    let similar = match dictionary.get_by_index(similar_index) {
        Some(e) => e,
        None => {
            return None;
        },
    };
    let probable = match dictionary.get_by_index(probable_index) {
        Some(e) => e,
        None => {
            return None;
        },
    };
    if !similar.1.eq(probable.1) {
        return None;
    }
    machine.process(config.state_graph(), probable.0)
}

} // verus!
