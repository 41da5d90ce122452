use vstd::prelude::*;

use crate::command_line::{split_command_line, words};
use crate::decimal::{signed_decimal, signed_decimal_string};

verus! {

/// Scroll axis.
#[derive(Debug, Clone, Copy, PartialEq, Eq, Structural)]
pub enum Axis {
    X,
    Y,
}

/// What a mouse command does with its button.
#[derive(Debug, Clone, Copy, PartialEq, Eq, Structural)]
pub enum KeyEvent {
    Press,
    Release,
    Click,
}

#[derive(Debug, Clone, Copy, PartialEq, Eq, Structural)]
pub enum MouseButton {
    Left,
    Right,
    Middle,
}

/// Bit pattern of the single-precision factor `1000.0`.
pub const DEFAULT_SCROLL_FACTOR_BITS: u32 = 0x447a_0000;

/// Scrolling along one axis, by the tracker's displacement times a factor,
/// either through the pointer device or through a custom command line that
/// receives the offset as its last argument.
#[derive(Debug)]
pub struct ScrollCommand {
    pub custom_command: Option<String>,
    /// IEEE-754 single-precision bit pattern of the scale factor; the
    /// arithmetic on it happens where the displacement is known.
    pub factor_bits: u32,
    pub axis: Axis,
}

/// An action bound to a state event.
#[derive(Debug)]
pub enum Command {
    Disabled,
    Execute(String),
    Mouse(MouseButton, KeyEvent),
    Scroll(ScrollCommand),
}

/// The scroll command a state gets for an axis when it becomes a scrolling
/// state: no custom command line, factor one thousand.
pub open spec fn default_scroll(axis: Axis) -> Command {
    Command::Scroll(ScrollCommand { custom_command: None, factor_bits: DEFAULT_SCROLL_FACTOR_BITS, axis })
}

/// What running a command does, for the caller to perform.
#[derive(Debug, PartialEq, Eq)]
pub enum Action {
    Nothing,
    /// Start a process: the program, then its arguments.
    Spawn(Vec<String>),
    MouseDown(MouseButton),
    MouseUp(MouseButton),
    MouseClick(MouseButton),
    /// Scroll by these offsets along x and y.
    Scroll(i32, i32),
}

/// The words of an action that starts a process.
pub open spec fn spawn_words(a: Action) -> Seq<Seq<char>> {
    match a {
        Action::Spawn(v) => v@.map_values(|w: String| w@),
        _ => Seq::empty(),
    }
}

/// The offset of a scroll command's own axis.
pub open spec fn axis_offset(axis: Axis, offset_x: i32, offset_y: i32) -> i32 {
    match axis {
        Axis::X => offset_x,
        Axis::Y => offset_y,
    }
}

/// Whether `a` is what the command does, given the scroll offsets of this
/// tick along each axis (the displacement times the command's factor,
/// rounded).
pub open spec fn performs(c: Command, offset_x: i32, offset_y: i32, a: Action) -> bool {
    match c {
        Command::Disabled => a == Action::Nothing,
        Command::Execute(line) => a is Spawn && spawn_words(a) == words(line@),
        Command::Mouse(b, KeyEvent::Press) => a == Action::MouseDown(b),
        Command::Mouse(b, KeyEvent::Release) => a == Action::MouseUp(b),
        Command::Mouse(b, KeyEvent::Click) => a == Action::MouseClick(b),
        Command::Scroll(sc) => match sc.custom_command {
            Some(line) => a is Spawn && spawn_words(a) == words(line@).push(
                signed_decimal(axis_offset(sc.axis, offset_x, offset_y) as int),
            ),
            None => match sc.axis {
                Axis::X => a == Action::Scroll(offset_x, 0),
                Axis::Y => a == Action::Scroll(0, offset_y),
            },
        },
    }
}

impl Command {
    /// What running this command does: a command line starts a process
    /// from its words; a custom scroll command line gets the offset of its
    /// axis as a last argument; otherwise a scroll moves along its axis
    /// only.
    pub fn action(&self, offset_x: i32, offset_y: i32) -> (r: Action)
        ensures
            performs(*self, offset_x, offset_y, r),
    {
        match self {
            Command::Disabled => Action::Nothing,
            Command::Execute(line) => Action::Spawn(split_command_line(line.as_str())),
            Command::Mouse(b, KeyEvent::Press) => Action::MouseDown(*b),
            Command::Mouse(b, KeyEvent::Release) => Action::MouseUp(*b),
            Command::Mouse(b, KeyEvent::Click) => Action::MouseClick(*b),
            Command::Scroll(sc) => {
                let offset = match sc.axis {
                    Axis::X => offset_x,
                    Axis::Y => offset_y,
                };
                match &sc.custom_command {
                    Some(line) => {
                        let mut w = split_command_line(line.as_str());
                        let ghost before = w@;
                        w.push(signed_decimal_string(offset));
                        proof {
                            assert(w@.map_values(|x: String| x@) =~= before.map_values(|x: String| x@).push(
                                signed_decimal(offset as int),
                            ));
                        }
                        Action::Spawn(w)
                    },
                    None => match sc.axis {
                        Axis::X => Action::Scroll(offset_x, 0),
                        Axis::Y => Action::Scroll(0, offset_y),
                    },
                }
            },
        }
    }

    pub fn default_scroll(axis: Axis) -> (r: Command)
        ensures
            r == default_scroll(axis),
    {
        Command::Scroll(ScrollCommand { custom_command: None, factor_bits: DEFAULT_SCROLL_FACTOR_BITS, axis })
    }
}

} // verus!
