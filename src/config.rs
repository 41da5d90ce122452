use vstd::prelude::*;

use crate::command::{default_scroll, Axis, Command};
use crate::conditional_edge::{lemma_edge_next_is_target, ConditionalEdge};
use crate::decimal::{signed_decimal, signed_decimal_string};
use crate::graph::{Edge, Graph, Node};
use crate::name_order::name_lt;
use crate::sign_dictionary::SignDictionary;
use crate::state::{lemma_state_id, State, StateEvent, StateType};
use crate::state_machine::TriggerGraph;

verus! {

/// Identifier of a state of the automaton.
pub type StateIndex = i32;

/// The automaton the configuration holds.
pub type ConditionalGraph = TriggerGraph<StateIndex>;

/// The state a fresh configuration starts in, and the machine with it.
pub const INITIAL_STATE_INDEX: StateIndex = 0;

pub const INITIAL_STATE_NAME: &'static str = "Start";

/// Bit pattern of the single-precision `1.0`, the default smoothness.
pub const DEFAULT_SMOOTHNESS_BITS: u32 = 0x3f80_0000;

/// Bit pattern of the single-precision `0.9`, the default threshold.
pub const DEFAULT_THRESHOLD_BITS: u32 = 0x3f66_6666;

/// Identifiers in the order they are handed out after `from`: its
/// successor comes first, and `from` itself last, after wrapping around.
pub open spec fn ring_offset(from: i32, to: i32) -> int {
    if to as int > from as int {
        to as int - from as int
    } else {
        to as int - from as int + 0x1_0000_0000
    }
}

/// The name a trigger shows.
pub open spec fn trigger_view(t: Option<String>) -> Option<Seq<char>> {
    match t {
        Some(s) => Some(s@),
        None => None,
    }
}

/// A trigger after the triggers named `from` are renamed to `to`.
pub open spec fn renamed(t: Option<Seq<char>>, from: Seq<char>, to: Option<Seq<char>>) -> Option<Seq<char>> {
    if t == Some(from) {
        to
    } else {
        t
    }
}

/// Whether `after` is `before` with every trigger named `from` renamed to
/// `to`, and nothing else changed.
pub open spec fn triggers_renamed(
    before: ConditionalGraph,
    after: ConditionalGraph,
    from: Seq<char>,
    to: Option<Seq<char>>,
) -> bool {
    &&& after.wf()
    &&& after.node_map() == before.node_map()
    &&& forall|a: StateIndex, b: StateIndex| #[trigger] after.has_edge(a, b) <==> before.has_edge(a, b)
    &&& forall|a: StateIndex, b: StateIndex| #[trigger]
        after.has_edge(a, b) ==> after.edge_map()[a][b].spec_target() == before.edge_map()[a][b].spec_target()
            && trigger_view(after.edge_map()[a][b].spec_trigger()) == renamed(
            trigger_view(before.edge_map()[a][b].spec_trigger()),
            from,
            to,
        )
}

fn clone_trigger(t: &Option<String>) -> (r: Option<String>)
    ensures
        trigger_view(r) == trigger_view(*t),
{
    match t {
        Some(s) => Some(s.clone()),
        None => None,
    }
}

/// What the user configures: the sign dictionary, the automaton, and two
/// tunables kept as single-precision bit patterns.
#[derive(Debug)]
pub struct Config {
    sign_dictionary: SignDictionary,
    state_graph: ConditionalGraph,
    last_node_id: StateIndex,
    pub sign_switching_smoothness_bits: u32,
    pub sign_probability_threshold_bits: u32,
}

impl Config {
    pub closed spec fn spec_dictionary(&self) -> SignDictionary {
        self.sign_dictionary
    }

    pub closed spec fn spec_graph(&self) -> ConditionalGraph {
        self.state_graph
    }

    pub closed spec fn spec_last_node_id(&self) -> StateIndex {
        self.last_node_id
    }

    pub closed spec fn spec_tunables(&self) -> (u32, u32) {
        (self.sign_switching_smoothness_bits, self.sign_probability_threshold_bits)
    }

    /// The dictionary and the automaton are well formed, and so is every
    /// state.
    pub open spec fn wf(&self) -> bool {
        &&& self.spec_dictionary().wf()
        &&& self.spec_graph().wf()
        &&& forall|k: StateIndex| #[trigger]
            self.spec_graph().node_map().contains_key(k) ==> self.spec_graph().node_map()[k].wf()
    }

    /// A configuration from its parts, as a stored one is read back.
    pub fn from_parts(
        sign_dictionary: SignDictionary,
        state_graph: ConditionalGraph,
        last_node_id: StateIndex,
        sign_switching_smoothness_bits: u32,
        sign_probability_threshold_bits: u32,
    ) -> (r: Config)
        ensures
            r.spec_dictionary() == sign_dictionary,
            r.spec_graph() == state_graph,
            r.spec_last_node_id() == last_node_id,
            r.spec_tunables() == (sign_switching_smoothness_bits, sign_probability_threshold_bits),
    {
        Config {
            sign_dictionary,
            state_graph,
            last_node_id,
            sign_switching_smoothness_bits,
            sign_probability_threshold_bits,
        }
    }

    /// The parts of a configuration, as they are stored.
    pub fn into_parts(self) -> (r: (SignDictionary, ConditionalGraph, StateIndex, u32, u32))
        ensures
            r == (
                self.spec_dictionary(),
                self.spec_graph(),
                self.spec_last_node_id(),
                self.spec_tunables().0,
                self.spec_tunables().1,
            ),
    {
        (
            self.sign_dictionary,
            self.state_graph,
            self.last_node_id,
            self.sign_switching_smoothness_bits,
            self.sign_probability_threshold_bits,
        )
    }

    /// The state the machine starts in; `None` when a stored
    /// configuration lacks it.
    pub fn initial_state(&self) -> (r: Option<&State<StateIndex>>)
        requires
            self.wf(),
        ensures
            match r {
                Some(s) => self.spec_graph().node_map().contains_key(INITIAL_STATE_INDEX) && *s
                    == self.spec_graph().node_map()[INITIAL_STATE_INDEX],
                None => !self.spec_graph().node_map().contains_key(INITIAL_STATE_INDEX),
            },
    {
        self.state_graph.get_node(&INITIAL_STATE_INDEX)
    }

    /// The identifier handed out last.
    pub fn last_node_id(&self) -> (r: StateIndex)
        ensures
            r == self.spec_last_node_id(),
    {
        self.last_node_id
    }

    pub fn sign_dictionary(&self) -> (r: &SignDictionary)
        ensures
            *r == self.spec_dictionary(),
    {
        &self.sign_dictionary
    }

    pub fn sign_dictionary_mut(&mut self) -> (r: &mut SignDictionary)
        ensures
            *r == old(self).spec_dictionary(),
            final(self).spec_dictionary() == *final(r),
            final(self).spec_graph() == old(self).spec_graph(),
            final(self).spec_last_node_id() == old(self).spec_last_node_id(),
            final(self).spec_tunables() == old(self).spec_tunables(),
    {
        &mut self.sign_dictionary
    }

    pub fn state_graph(&self) -> (r: &ConditionalGraph)
        ensures
            *r == self.spec_graph(),
    {
        &self.state_graph
    }

    pub fn state_graph_mut(&mut self) -> (r: &mut ConditionalGraph)
        ensures
            *r == old(self).spec_graph(),
            final(self).spec_graph() == *final(r),
            final(self).spec_dictionary() == old(self).spec_dictionary(),
            final(self).spec_last_node_id() == old(self).spec_last_node_id(),
            final(self).spec_tunables() == old(self).spec_tunables(),
    {
        &mut self.state_graph
    }

    /// Renames every edge trigger named `from` to `to`; with `to` empty
    /// such edges no longer fire.
    pub fn rename_trigger(&mut self, from: &String, to: &Option<String>)
        requires
            old(self).wf(),
        ensures
            final(self).wf(),
            triggers_renamed(old(self).spec_graph(), final(self).spec_graph(), from@, trigger_view(*to)),
            final(self).spec_dictionary() == old(self).spec_dictionary(),
            final(self).spec_last_node_id() == old(self).spec_last_node_id(),
            final(self).spec_tunables() == old(self).spec_tunables(),
    {
        let ghost g0 = self.state_graph;
        let pairs = self.state_graph.edge_list();
        let mut k: usize = 0;
        while k < pairs.len()
            invariant
                g0.wf(),
                self.wf(),
                self.spec_dictionary() == old(self).spec_dictionary(),
                self.spec_last_node_id() == old(self).spec_last_node_id(),
                self.spec_tunables() == old(self).spec_tunables(),
                g0 == old(self).spec_graph(),
                k <= pairs@.len(),
                forall|a: StateIndex, b: StateIndex| #[trigger] pairs@.contains((a, b)) <==> g0.has_edge(a, b),
                self.spec_graph().node_map() == g0.node_map(),
                forall|a: StateIndex, b: StateIndex| #[trigger] self.spec_graph().has_edge(a, b) <==> g0.has_edge(a, b),
                forall|a: StateIndex, b: StateIndex| #[trigger] self.spec_graph().has_edge(a, b) ==> {
                    let e = self.spec_graph().edge_map()[a][b];
                    let e0 = g0.edge_map()[a][b];
                    &&& e.spec_target() == e0.spec_target()
                    &&& trigger_view(e.spec_trigger()) == if pairs@.subrange(0, k as int).contains((a, b)) {
                        renamed(trigger_view(e0.spec_trigger()), from@, trigger_view(*to))
                    } else {
                        trigger_view(e0.spec_trigger())
                    }
                },
            decreases pairs@.len() - k,
        {
            let (a, b) = pairs[k];
            proof {
                assert(pairs@.contains((a, b)));
            }
            let ghost g1 = self.state_graph;
            let hit = match self.state_graph.get_edge(&a, &b) {
                Some(e) => match e.trigger() {
                    Some(t) => *t == *from,
                    None => false,
                },
                None => false,
            };
            proof {
                let e = g1.edge_map()[a][b];
                lemma_edge_next_is_target(e);
            }
            if hit {
                let edge = ConditionalEdge::new(b, clone_trigger(to));
                proof {
                    lemma_edge_next_is_target(edge);
                }
                self.state_graph.add_edge(&a, edge);
            }
            proof {
                let pre = pairs@.subrange(0, k as int);
                let post = pairs@.subrange(0, k + 1);
                assert(post =~= pre.push((a, b)));
                assert(g1.has_edge(a, b));
                assert forall|x: StateIndex, y: StateIndex| #[trigger] self.spec_graph().has_edge(x, y) <==> g0.has_edge(x, y) by {
                    assert(g1.has_edge(x, y) <==> g0.has_edge(x, y));
                }
                assert forall|x: StateIndex, y: StateIndex| #[trigger] self.spec_graph().has_edge(x, y) implies {
                    let e = self.spec_graph().edge_map()[x][y];
                    let e0 = g0.edge_map()[x][y];
                    &&& e.spec_target() == e0.spec_target()
                    &&& trigger_view(e.spec_trigger()) == if post.contains((x, y)) {
                        renamed(trigger_view(e0.spec_trigger()), from@, trigger_view(*to))
                    } else {
                        trigger_view(e0.spec_trigger())
                    }
                } by {
                    vstd::seq_lib::lemma_seq_contains_after_push(pre, (a, b), (x, y));
                    assert(g1.has_edge(x, y));
                    lemma_edge_next_is_target(g1.edge_map()[x][y]);
                    lemma_edge_next_is_target(g0.edge_map()[x][y]);
                }
                assert forall|x: StateIndex| #[trigger]
                    self.spec_graph().node_map().contains_key(x) implies self.spec_graph().node_map()[x].wf() by {
                    assert(g0.node_map().contains_key(x));
                }
            }
            k = k + 1;
        }
        proof {
            assert(pairs@.subrange(0, pairs@.len() as int) =~= pairs@);
        }
    }

    /// Renames the sign `old_name` to `new_name`, replacing any sign under
    /// the new name, and renames the triggers that named it. `false`, with
    /// nothing changed, when there is no such sign.
    pub fn rename_sign(&mut self, old_name: &String, new_name: String) -> (r: bool)
        requires
            old(self).wf(),
        ensures
            final(self).wf(),
            r == old(self).spec_dictionary().has_name(old_name@),
            !r ==> *final(self) == *old(self),
            r ==> {
                &&& triggers_renamed(old(self).spec_graph(), final(self).spec_graph(), old_name@, Some(new_name@))
                &&& forall|n: Seq<char>| #[trigger] final(self).spec_dictionary().has_name(n) <==> (n == new_name@
                    || (old(self).spec_dictionary().has_name(n) && n != old_name@))
                &&& exists|i: int, j: int| 0 <= i < old(self).spec_dictionary().entries().len()
                    && 0 <= j < final(self).spec_dictionary().entries().len()
                    && #[trigger] old(self).spec_dictionary().entries()[i].0 == old_name@
                    && #[trigger] final(self).spec_dictionary().entries()[j] == (
                    new_name@,
                    old(self).spec_dictionary().entries()[i].1,
                )
            },
            final(self).spec_last_node_id() == old(self).spec_last_node_id(),
            final(self).spec_tunables() == old(self).spec_tunables(),
    {
        let ghost d0 = self.sign_dictionary;
        let sign = match self.sign_dictionary.remove(old_name.as_str()) {
            Some(s) => s,
            None => {
                return false;
            },
        };
        let ghost d1 = self.sign_dictionary;
        proof {
            let p = choose|p: int| 0 <= p < d0.entries().len() && (#[trigger] d0.entries()[p]) == (old_name@, sign)
                    && d1.entries() == d0.entries().remove(p);
            assert(d0.entries()[p].1.wf());
        }
        let trigger = Some(new_name.clone());
        self.sign_dictionary.insert(new_name, sign);
        self.rename_trigger(old_name, &trigger);
        true
    }

    /// Removes the sign `name`; the triggers that named it are cleared, so
    /// their edges no longer fire. `false`, with nothing changed, when
    /// there is no such sign.
    pub fn delete_sign(&mut self, name: &String) -> (r: bool)
        requires
            old(self).wf(),
        ensures
            final(self).wf(),
            r == old(self).spec_dictionary().has_name(name@),
            !r ==> *final(self) == *old(self),
            r ==> triggers_renamed(old(self).spec_graph(), final(self).spec_graph(), name@, None),
            r ==> exists|p: int| 0 <= p < old(self).spec_dictionary().entries().len()
                && (#[trigger] old(self).spec_dictionary().entries()[p]).0 == name@
                && final(self).spec_dictionary().entries() == old(self).spec_dictionary().entries().remove(p),
            final(self).spec_last_node_id() == old(self).spec_last_node_id(),
            final(self).spec_tunables() == old(self).spec_tunables(),
    {
        match self.sign_dictionary.remove(name.as_str()) {
            Some(_) => {},
            None => {
                return false;
            },
        }
        self.rename_trigger(name, &None);
        true
    }

    /// Takes the state `id` out of the graph, leaving a fresh state with
    /// the same identifier in its place.
    fn take_state(&mut self, id: StateIndex) -> (r: Option<State<StateIndex>>)
        requires
            old(self).wf(),
        ensures
            final(self).spec_graph().wf(),
            final(self).spec_dictionary() == old(self).spec_dictionary(),
            final(self).spec_last_node_id() == old(self).spec_last_node_id(),
            final(self).spec_tunables() == old(self).spec_tunables(),
            final(self).spec_graph().edge_map() == old(self).spec_graph().edge_map(),
            final(self).spec_graph().node_map().dom() == old(self).spec_graph().node_map().dom(),
            forall|k: StateIndex| #[trigger] final(self).spec_graph().node_map().contains_key(k) && k != id
                ==> final(self).spec_graph().node_map()[k] == old(self).spec_graph().node_map()[k],
            r matches Some(s) ==> old(self).spec_graph().node_map().contains_key(id) && s == old(
                self,
            ).spec_graph().node_map()[id],
            r is None ==> !old(self).spec_graph().node_map().contains_key(id) && *final(self) == *old(self),
    {
        let placeholder = State::new(id);
        proof {
            lemma_state_id(placeholder);
        }
        let r = self.state_graph.replace_node(placeholder);
        proof {
            assert(self.spec_graph().node_map().dom() =~= old(self).spec_graph().node_map().dom());
        }
        r
    }

    /// Puts an edited state back under its identifier.
    fn put_state(&mut self, s: State<StateIndex>)
        requires
            old(self).spec_graph().wf(),
            old(self).spec_dictionary().wf(),
            old(self).spec_graph().node_map().contains_key(s.spec_index()),
            s.wf(),
            forall|k: StateIndex| #[trigger] old(self).spec_graph().node_map().contains_key(k) && k != s.spec_index()
                ==> old(self).spec_graph().node_map()[k].wf(),
        ensures
            final(self).wf(),
            final(self).spec_dictionary() == old(self).spec_dictionary(),
            final(self).spec_last_node_id() == old(self).spec_last_node_id(),
            final(self).spec_tunables() == old(self).spec_tunables(),
            final(self).spec_graph().edge_map() == old(self).spec_graph().edge_map(),
            final(self).spec_graph().node_map() == old(self).spec_graph().node_map().insert(s.spec_index(), s),
    {
        proof {
            lemma_state_id(s);
        }
        let ghost sv = s;
        self.state_graph.replace_node(s);
        proof {
            assert forall|k: StateIndex| #[trigger] self.spec_graph().node_map().contains_key(k) implies self.spec_graph().node_map()[k].wf() by {
                if k == sv.spec_index() {
                } else {
                    assert(old(self).spec_graph().node_map().contains_key(k));
                }
            }
        }
    }

    /// Renames the state `id`; `false`, with nothing changed, when there is
    /// no such state.
    pub fn rename_state(&mut self, id: StateIndex, name: String) -> (r: bool)
        requires
            old(self).wf(),
        ensures
            final(self).wf(),
            r == old(self).spec_graph().node_map().contains_key(id),
            !r ==> *final(self) == *old(self),
            r ==> {
                let s0 = old(self).spec_graph().node_map()[id];
                let s1 = final(self).spec_graph().node_map()[id];
                &&& final(self).spec_graph().node_map() == old(self).spec_graph().node_map().insert(id, s1)
                &&& final(self).spec_graph().edge_map() == old(self).spec_graph().edge_map()
                &&& s1.spec_name() == name@
                &&& s1.spec_index() == s0.spec_index()
                &&& s1.spec_type() == s0.spec_type()
                &&& s1.spec_position() == s0.spec_position()
                &&& forall|e: StateEvent| #[trigger] s1.command(e) == s0.command(e)
            },
            final(self).spec_dictionary() == old(self).spec_dictionary(),
            final(self).spec_last_node_id() == old(self).spec_last_node_id(),
            final(self).spec_tunables() == old(self).spec_tunables(),
    {
        let mut s = match self.take_state(id) {
            Some(s) => s,
            None => {
                return false;
            },
        };
        proof {
            assert(old(self).spec_graph().node_map().contains_key(id));
            lemma_state_id(s);
        }
        s.set_name(name);
        self.put_state(s);
        true
    }

    /// Moves the state `id` in the editor; `false`, with nothing changed,
    /// when there is no such state.
    pub fn move_state(&mut self, id: StateIndex, x_bits: u32, y_bits: u32) -> (r: bool)
        requires
            old(self).wf(),
        ensures
            final(self).wf(),
            r == old(self).spec_graph().node_map().contains_key(id),
            !r ==> *final(self) == *old(self),
            r ==> {
                let s0 = old(self).spec_graph().node_map()[id];
                let s1 = final(self).spec_graph().node_map()[id];
                &&& final(self).spec_graph().node_map() == old(self).spec_graph().node_map().insert(id, s1)
                &&& final(self).spec_graph().edge_map() == old(self).spec_graph().edge_map()
                &&& s1.spec_position() == (x_bits, y_bits)
                &&& s1.spec_name() == s0.spec_name()
                &&& s1.spec_index() == s0.spec_index()
                &&& s1.spec_type() == s0.spec_type()
                &&& forall|e: StateEvent| #[trigger] s1.command(e) == s0.command(e)
            },
            final(self).spec_dictionary() == old(self).spec_dictionary(),
            final(self).spec_last_node_id() == old(self).spec_last_node_id(),
            final(self).spec_tunables() == old(self).spec_tunables(),
    {
        let mut s = match self.take_state(id) {
            Some(s) => s,
            None => {
                return false;
            },
        };
        proof {
            assert(old(self).spec_graph().node_map().contains_key(id));
            lemma_state_id(s);
        }
        s.set_position(x_bits, y_bits);
        self.put_state(s);
        true
    }

    /// Changes the type of the state `id`, as `State::set_type` does;
    /// `false`, with nothing changed, when there is no such state.
    pub fn set_state_type(&mut self, id: StateIndex, new_type: StateType) -> (r: bool)
        requires
            old(self).wf(),
        ensures
            final(self).wf(),
            r == old(self).spec_graph().node_map().contains_key(id),
            !r ==> *final(self) == *old(self),
            r ==> {
                let s0 = old(self).spec_graph().node_map()[id];
                let s1 = final(self).spec_graph().node_map()[id];
                &&& final(self).spec_graph().node_map() == old(self).spec_graph().node_map().insert(id, s1)
                &&& final(self).spec_graph().edge_map() == old(self).spec_graph().edge_map()
                &&& s1.spec_type() == new_type
                &&& new_type == s0.spec_type() ==> s1 == s0
                &&& s1.spec_name() == s0.spec_name()
                &&& s1.spec_index() == s0.spec_index()
                &&& s1.command(StateEvent::OnEnter) == s0.command(StateEvent::OnEnter)
                &&& s1.command(StateEvent::OnExit) == s0.command(StateEvent::OnExit)
                &&& new_type != s0.spec_type() && new_type == StateType::Scrolling ==> {
                    &&& s1.command(StateEvent::OnScrollX) == Some(default_scroll(Axis::X))
                    &&& s1.command(StateEvent::OnScrollY) == Some(default_scroll(Axis::Y))
                }
                &&& new_type != StateType::Scrolling ==> s1.command(StateEvent::OnScrollX) is None
                    && s1.command(StateEvent::OnScrollY) is None
            },
            final(self).spec_dictionary() == old(self).spec_dictionary(),
            final(self).spec_last_node_id() == old(self).spec_last_node_id(),
            final(self).spec_tunables() == old(self).spec_tunables(),
    {
        let mut s = match self.take_state(id) {
            Some(s) => s,
            None => {
                return false;
            },
        };
        proof {
            assert(old(self).spec_graph().node_map().contains_key(id));
            lemma_state_id(s);
        }
        s.set_type(new_type);
        self.put_state(s);
        true
    }

    /// Binds `command` to an event of the state `id`, as
    /// `State::set_command` does; `false`, with nothing changed, when there
    /// is no such state.
    pub fn set_state_command(&mut self, id: StateIndex, event: StateEvent, command: Command) -> (r: bool)
        requires
            old(self).wf(),
        ensures
            final(self).wf(),
            r == old(self).spec_graph().node_map().contains_key(id),
            !r ==> *final(self) == *old(self),
            r ==> {
                let s0 = old(self).spec_graph().node_map()[id];
                let s1 = final(self).spec_graph().node_map()[id];
                &&& final(self).spec_graph().node_map() == old(self).spec_graph().node_map().insert(id, s1)
                &&& final(self).spec_graph().edge_map() == old(self).spec_graph().edge_map()
                &&& s1.spec_name() == s0.spec_name()
                &&& s1.spec_index() == s0.spec_index()
                &&& s1.spec_type() == s0.spec_type()
                &&& s1.spec_position() == s0.spec_position()
                &&& forall|e: StateEvent| e != event ==> #[trigger] s1.command(e) == s0.command(e)
                &&& s1.command(event) == if s0.command(event) is Some {
                    Some(command)
                } else {
                    None::<Command>
                }
            },
            final(self).spec_dictionary() == old(self).spec_dictionary(),
            final(self).spec_last_node_id() == old(self).spec_last_node_id(),
            final(self).spec_tunables() == old(self).spec_tunables(),
    {
        let mut s = match self.take_state(id) {
            Some(s) => s,
            None => {
                return false;
            },
        };
        proof {
            assert(old(self).spec_graph().node_map().contains_key(id));
            lemma_state_id(s);
        }
        s.set_command(event, command);
        self.put_state(s);
        true
    }

    /// Removes the state `id` with its edges. The initial state is never
    /// removed; `false`, with nothing changed, for it or for a missing
    /// state.
    pub fn delete_state(&mut self, id: StateIndex) -> (r: bool)
        requires
            old(self).wf(),
        ensures
            final(self).wf(),
            r == (id != INITIAL_STATE_INDEX && old(self).spec_graph().node_map().contains_key(id)),
            !r ==> *final(self) == *old(self),
            r ==> {
                let g0 = old(self).spec_graph();
                let g1 = final(self).spec_graph();
                &&& g1.node_map() == g0.node_map().remove(id)
                &&& forall|a: StateIndex, b: StateIndex| #[trigger]
                    g1.has_edge(a, b) <==> (g0.has_edge(a, b) && a != id && b != id)
                &&& forall|a: StateIndex, b: StateIndex| #[trigger]
                    g1.has_edge(a, b) ==> g1.edge_map()[a][b] == g0.edge_map()[a][b]
            },
            final(self).spec_dictionary() == old(self).spec_dictionary(),
            final(self).spec_last_node_id() == old(self).spec_last_node_id(),
            final(self).spec_tunables() == old(self).spec_tunables(),
    {
        if id == INITIAL_STATE_INDEX || self.state_graph.get_node(&id).is_none() {
            return false;
        }
        self.state_graph.delete_node(&id);
        proof {
            assert forall|k: StateIndex| #[trigger] self.spec_graph().node_map().contains_key(k) implies self.spec_graph().node_map()[k].wf() by {
                assert(old(self).spec_graph().node_map().contains_key(k));
            }
        }
        true
    }

    /// The first identifier after the last one handed out, wrapping from
    /// the largest to the smallest, that no state has; it becomes the last
    /// one handed out. `None`, with nothing changed, when every other
    /// identifier is taken.
    fn next_node_id(&mut self) -> (r: Option<StateIndex>)
        requires
            old(self).wf(),
        ensures
            final(self).spec_dictionary() == old(self).spec_dictionary(),
            final(self).spec_graph() == old(self).spec_graph(),
            final(self).spec_tunables() == old(self).spec_tunables(),
            r matches Some(id) ==> {
                &&& !old(self).spec_graph().node_map().contains_key(id)
                &&& id != old(self).spec_last_node_id()
                &&& final(self).spec_last_node_id() == id
                &&& forall|k: StateIndex|
                    ring_offset(old(self).spec_last_node_id(), k) < ring_offset(
                        old(self).spec_last_node_id(),
                        id,
                    ) ==> #[trigger] old(self).spec_graph().node_map().contains_key(k)
            },
            r is None ==> final(self).spec_last_node_id() == old(self).spec_last_node_id() && forall|
                k: StateIndex,
            | k != old(self).spec_last_node_id() ==> #[trigger] old(
                self,
            ).spec_graph().node_map().contains_key(k),
    {
        let last = self.last_node_id;
        let mut id = last;
        let mut n: u64 = 0;
        loop
            invariant
                self.wf(),
                *self == *old(self),
                last == self.last_node_id,
                n < 0x1_0000_0000,
                n == 0 ==> id == last,
                n > 0 ==> ring_offset(last, id) == n,
                forall|k: StateIndex|
                    ring_offset(last, k) <= n ==> #[trigger] self.spec_graph().node_map().contains_key(k),
            decreases 0x1_0000_0000 - n,
        {
            if id == i32::MAX {
                id = i32::MIN;
            } else {
                id = id + 1;
            }
            n = n + 1;
            if id == last {
                return None;
            }
            if !self.state_graph.nodes().contains_key(&id) {
                self.last_node_id = id;
                return Some(id);
            }
            if n == 0xffff_ffff {
                return None;
            }
        }
    }

    /// Adds a basic state under a fresh identifier, named by that
    /// identifier in decimal, and returns the identifier; `None`, with
    /// nothing changed, when no identifier is free.
    pub fn new_state(&mut self) -> (r: Option<StateIndex>)
        requires
            old(self).wf(),
        ensures
            final(self).wf(),
            final(self).spec_dictionary() == old(self).spec_dictionary(),
            final(self).spec_tunables() == old(self).spec_tunables(),
            r is None ==> final(self).spec_graph() == old(self).spec_graph(),
            r is None ==> forall|k: StateIndex|
                k != old(self).spec_last_node_id() ==> #[trigger] old(
                    self,
                ).spec_graph().node_map().contains_key(k),
            r matches Some(id) ==> final(self).spec_last_node_id() == id,
            r matches Some(id) ==> {
                let s = final(self).spec_graph().node_map()[id];
                &&& !old(self).spec_graph().node_map().contains_key(id)
                &&& final(self).spec_graph().node_map() == old(self).spec_graph().node_map().insert(id, s)
                &&& final(self).spec_graph().edge_map() == old(self).spec_graph().edge_map().insert(
                    id,
                    Map::empty(),
                )
                &&& s.spec_index() == id
                &&& s.spec_name() == signed_decimal(id as int)
                &&& s.spec_type() == StateType::Basic
                &&& s.command(StateEvent::OnEnter) == Some(Command::Disabled)
                &&& s.command(StateEvent::OnExit) == Some(Command::Disabled)
                &&& s.command(StateEvent::OnScrollX) is None
                &&& s.command(StateEvent::OnScrollY) is None
            },
    {
        let id = match self.next_node_id() {
            Some(id) => id,
            None => {
                return None;
            },
        };
        let mut state = State::new(id);
        state.set_name(signed_decimal_string(id));
        proof {
            lemma_state_id(state);
        }
        let added = self.state_graph.add_node(state);
        assert(added);
        Some(id)
    }
}

impl Default for Config {
    /// An empty dictionary, an automaton of one basic state named "Start"
    /// under the initial identifier, and the default tunables.
    fn default() -> (r: Config)
        ensures
            r.wf(),
            r.spec_dictionary().entries().len() == 0,
            r.spec_graph().node_map().dom() == set![INITIAL_STATE_INDEX],
            r.spec_graph().node_map()[INITIAL_STATE_INDEX].spec_name() == INITIAL_STATE_NAME@,
            r.spec_graph().node_map()[INITIAL_STATE_INDEX].spec_type() == StateType::Basic,
            r.spec_graph().edge_map()[INITIAL_STATE_INDEX] == Map::<
                StateIndex,
                ConditionalEdge<StateIndex, Option<String>>,
            >::empty(),
            r.spec_last_node_id() == INITIAL_STATE_INDEX,
            r.spec_tunables() == (DEFAULT_SMOOTHNESS_BITS, DEFAULT_THRESHOLD_BITS),
    {
        let mut state_graph: ConditionalGraph = Graph::new();
        let mut initial_state = State::new(INITIAL_STATE_INDEX);
        initial_state.set_name(String::from_str(INITIAL_STATE_NAME));
        proof {
            lemma_state_id(initial_state);
        }
        state_graph.add_node(initial_state);
        proof {
            assert(state_graph.node_map().dom() =~= set![INITIAL_STATE_INDEX]);
        }
        Config {
            sign_dictionary: SignDictionary::new(),
            state_graph,
            last_node_id: INITIAL_STATE_INDEX,
            sign_switching_smoothness_bits: DEFAULT_SMOOTHNESS_BITS,
            sign_probability_threshold_bits: DEFAULT_THRESHOLD_BITS,
        }
    }
}

} // verus!
