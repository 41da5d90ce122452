//! Gesture-driven pointer control: masked sign matching, a sign dictionary,
//! a directed graph with an inverse-edge index, and a table-driven state
//! machine that maps recognised gestures to configured commands.

pub mod bit_string;
pub mod command;
pub mod command_line;
pub mod config;
pub mod conditional_edge;
pub mod decimal;
pub mod graph;
pub mod name_order;
pub mod sign;
pub mod sign_dictionary;
pub mod state;
pub mod state_machine;
pub mod tick;

pub use bit_string::{BitIndexError, BitString};
pub use conditional_edge::ConditionalEdge;
pub use config::{Config, ConditionalGraph, StateIndex, INITIAL_STATE_INDEX};
pub use command_line::split_command_line;
pub use command::{Action, Axis, Command, KeyEvent, MouseButton, ScrollCommand};
pub use graph::{Edge, Graph, Node};
pub use sign::{Feature, Sign, FEATURE_COUNT};
pub use sign_dictionary::{IndexedSign, SignDictionary};
pub use state::{State, StateEvent, StateType};
pub use state_machine::{StateMachine, TriggerGraph};
pub use tick::gesture_step;
