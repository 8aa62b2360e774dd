//! Button input and a key-driven view for a small monochrome display.
//!
//! The crate turns sampled line levels into key events ([`input`]), applies
//! those events to the position of a circle on a fixed canvas ([`view`]),
//! drains the event queue once per cycle ([`dispatch`]) and says which
//! pixels a frame erases and paints ([`render`], [`cycle`]). What holds of
//! all this for every input is proved in [`laws`].

pub mod cycle;
pub mod dispatch;
pub mod input;
pub mod laws;
pub mod render;
pub mod view;

pub use cycle::{run_cycle, Frame};
pub use dispatch::{dispatch_events, dispatch_input_events};
pub use input::{input_table, scan, Input, InputKey, KeyEvent, KeyEventKind, Level};
pub use render::{Color, Pixel};
pub use view::{Action, View};
