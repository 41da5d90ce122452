use std::hash::Hash;

use vstd::prelude::*;

use crate::command::{default_scroll, Axis, Command};
use crate::graph::Node;

verus! {

/// What a state does with the pointer while it is current.
#[derive(Debug, Clone, Copy, PartialEq, Eq, Structural)]
pub enum StateType {
    Basic,
    Pointing,
    Scrolling,
}

/// The events a state can bind a command to.
#[derive(Debug, Clone, Copy, PartialEq, Eq, Hash, Structural)]
pub enum StateEvent {
    OnEnter,
    OnExit,
    OnScrollX,
    OnScrollY,
}

/// A node of the automaton. Entering and leaving always have a command;
/// the two scroll events have one exactly while the state is a scrolling
/// state.
#[derive(Debug)]
pub struct State<I> {
    index: I,
    pub name: String,
    kind: StateType,
    on_enter: Command,
    on_exit: Command,
    on_scroll_x: Option<Command>,
    on_scroll_y: Option<Command>,
    /// Editor position, as IEEE-754 single-precision bit patterns.
    pub x_bits: u32,
    pub y_bits: u32,
}

impl<I: Copy> State<I> {
    pub closed spec fn spec_index(&self) -> I {
        self.index
    }

    pub closed spec fn spec_name(&self) -> Seq<char> {
        self.name@
    }

    /// The editor position's bit patterns.
    pub closed spec fn spec_position(&self) -> (u32, u32) {
        (self.x_bits, self.y_bits)
    }

    pub closed spec fn spec_type(&self) -> StateType {
        self.kind
    }

    /// The command bound to an event, if the event exists for this state.
    pub closed spec fn command(&self, event: StateEvent) -> Option<Command> {
        match event {
            StateEvent::OnEnter => Some(self.on_enter),
            StateEvent::OnExit => Some(self.on_exit),
            StateEvent::OnScrollX => self.on_scroll_x,
            StateEvent::OnScrollY => self.on_scroll_y,
        }
    }

    /// The scroll events exist exactly in a scrolling state.
    pub closed spec fn wf(&self) -> bool {
        (self.kind == StateType::Scrolling) == (self.on_scroll_x is Some)
            && (self.kind == StateType::Scrolling) == (self.on_scroll_y is Some)
    }

    /// A basic state named "New " whose enter and exit commands are
    /// disabled.
    pub fn new(index: I) -> (r: State<I>)
        ensures
            r.wf(),
            r.spec_index() == index,
            r.spec_name() == "New "@,
            r.spec_type() == StateType::Basic,
            r.command(StateEvent::OnEnter) == Some(Command::Disabled),
            r.command(StateEvent::OnExit) == Some(Command::Disabled),
            r.command(StateEvent::OnScrollX) is None,
            r.command(StateEvent::OnScrollY) is None,
            r.spec_position() == (0u32, 0u32),
    {
        State {
            index,
            name: String::from_str("New "),
            kind: StateType::Basic,
            on_enter: Command::Disabled,
            on_exit: Command::Disabled,
            on_scroll_x: None,
            on_scroll_y: None,
            x_bits: 0,
            y_bits: 0,
        }
    }

    /// The events of this state with their commands: enter, exit, then the
    /// scroll events where they exist.
    pub fn events(&self) -> (r: Vec<(StateEvent, &Command)>)
        ensures
            forall|i: int| 0 <= i < r@.len() ==> self.command(#[trigger] r@[i].0) == Some(*r@[i].1),
            forall|e: StateEvent| #[trigger] self.command(e) is Some ==> exists|i: int| 0 <= i < r@.len() && r@[i].0 == e,
            forall|i: int, j: int| 0 <= i < j < r@.len() ==> #[trigger] r@[i].0 != #[trigger] r@[j].0,
    {
        let mut r: Vec<(StateEvent, &Command)> = Vec::new();
        r.push((StateEvent::OnEnter, &self.on_enter));
        r.push((StateEvent::OnExit, &self.on_exit));
        match &self.on_scroll_x {
            Some(c) => r.push((StateEvent::OnScrollX, c)),
            None => {},
        }
        match &self.on_scroll_y {
            Some(c) => r.push((StateEvent::OnScrollY, c)),
            None => {},
        }
        proof {
            assert forall|e: StateEvent| #[trigger] self.command(e) is Some implies exists|i: int| 0 <= i < r@.len() && r@[i].0 == e by {
                match e {
                    StateEvent::OnEnter => assert(r@[0].0 == e),
                    StateEvent::OnExit => assert(r@[1].0 == e),
                    StateEvent::OnScrollX => assert(r@[2].0 == e),
                    StateEvent::OnScrollY => assert(r@[r@.len() - 1].0 == e),
                }
            }
        }
        r
    }

    pub fn get_command(&self, event: &StateEvent) -> (r: Option<&Command>)
        ensures
            match r {
                Some(c) => self.command(*event) == Some(*c),
                None => self.command(*event) is None,
            },
    {
        match event {
            StateEvent::OnEnter => Some(&self.on_enter),
            StateEvent::OnExit => Some(&self.on_exit),
            StateEvent::OnScrollX => match &self.on_scroll_x {
                Some(c) => Some(c),
                None => None,
            },
            StateEvent::OnScrollY => match &self.on_scroll_y {
                Some(c) => Some(c),
                None => None,
            },
        }
    }

    /// Replaces the command of an event this state has; an event it does
    /// not have is left out, and nothing changes.
    pub fn set_command(&mut self, event: StateEvent, command: Command)
        requires
            old(self).wf(),
        ensures
            final(self).wf(),
            final(self).spec_index() == old(self).spec_index(),
            final(self).spec_type() == old(self).spec_type(),
            final(self).spec_name() == old(self).spec_name(),
            final(self).spec_position() == old(self).spec_position(),
            forall|e: StateEvent| e != event ==> #[trigger] final(self).command(e) == old(self).command(e),
            final(self).command(event) == (if old(self).command(event) is Some {
                Some(command)
            } else {
                None::<Command>
            }),
    {
        match event {
            StateEvent::OnEnter => {
                self.on_enter = command;
            },
            StateEvent::OnExit => {
                self.on_exit = command;
            },
            StateEvent::OnScrollX => {
                if self.on_scroll_x.is_some() {
                    self.on_scroll_x = Some(command);
                }
            },
            StateEvent::OnScrollY => {
                if self.on_scroll_y.is_some() {
                    self.on_scroll_y = Some(command);
                }
            },
        }
    }

    pub fn set_name(&mut self, name: String)
        ensures
            final(self).spec_name() == name@,
            final(self).spec_index() == old(self).spec_index(),
            final(self).spec_type() == old(self).spec_type(),
            final(self).spec_position() == old(self).spec_position(),
            forall|e: StateEvent| #[trigger] final(self).command(e) == old(self).command(e),
            final(self).wf() == old(self).wf(),
    {
        self.name = name;
    }

    /// Moves the state in the editor.
    pub fn set_position(&mut self, x_bits: u32, y_bits: u32)
        ensures
            final(self).spec_position() == (x_bits, y_bits),
            final(self).spec_name() == old(self).spec_name(),
            final(self).spec_index() == old(self).spec_index(),
            final(self).spec_type() == old(self).spec_type(),
            forall|e: StateEvent| #[trigger] final(self).command(e) == old(self).command(e),
            final(self).wf() == old(self).wf(),
    {
        self.x_bits = x_bits;
        self.y_bits = y_bits;
    }

    pub fn state_type(&self) -> (r: StateType)
        ensures
            r == self.spec_type(),
    {
        self.kind
    }

    /// Changes the type. Leaving the scrolling type drops both scroll
    /// commands; entering it binds the default scroll command to each axis.
    /// Enter and exit commands are kept; the same type changes nothing.
    pub fn set_type(&mut self, new_type: StateType)
        requires
            old(self).wf(),
        ensures
            final(self).wf(),
            final(self).spec_type() == new_type,
            new_type == old(self).spec_type() ==> *final(self) == *old(self),
            final(self).spec_index() == old(self).spec_index(),
            final(self).spec_name() == old(self).spec_name(),
            final(self).spec_position() == old(self).spec_position(),
            final(self).command(StateEvent::OnEnter) == old(self).command(StateEvent::OnEnter),
            final(self).command(StateEvent::OnExit) == old(self).command(StateEvent::OnExit),
            new_type != old(self).spec_type() && new_type == StateType::Scrolling ==> {
                &&& final(self).command(StateEvent::OnScrollX) == Some(default_scroll(Axis::X))
                &&& final(self).command(StateEvent::OnScrollY) == Some(default_scroll(Axis::Y))
            },
            new_type != StateType::Scrolling ==> final(self).command(StateEvent::OnScrollX) is None
                && final(self).command(StateEvent::OnScrollY) is None,
    {
        if self.kind == new_type {
            return;
        }
        match self.kind {
            StateType::Basic => {},
            StateType::Pointing => {},
            StateType::Scrolling => {
                self.on_scroll_x = None;
                self.on_scroll_y = None;
            },
        }
        self.kind = new_type;
        match self.kind {
            StateType::Basic => {},
            StateType::Pointing => {},
            StateType::Scrolling => {
                self.on_scroll_x = Some(Command::default_scroll(Axis::X));
                self.on_scroll_y = Some(Command::default_scroll(Axis::Y));
            },
        }
    }
}

impl<I: Copy> Node<I> for State<I> {
    closed spec fn spec_id(&self) -> I {
        self.index
    }

    fn id(&self) -> (r: I) {
        self.index
    }
}

} // verus!

verus! {

/// Every state has an enter and an exit command.
pub proof fn lemma_enter_exit_bound<I: Copy>(s: State<I>)
    ensures
        s.command(StateEvent::OnEnter) is Some,
        s.command(StateEvent::OnExit) is Some,
{
}

} // verus!

verus! {

/// A state is stored in a graph under its own index.
pub proof fn lemma_state_id<I: Copy>(s: State<I>)
    ensures
        s.spec_id() == s.spec_index(),
{
}

} // verus!
