//! Line-by-line resolution of merge conflicts recorded with the usual
//! `<<<<<<<`, `=======` and `>>>>>>>` markers.
//!
//! A conflict-marked text is read into three columns of equal length: the
//! local side, the result in progress and the incoming side. A cursor walks
//! the rows, either side can be accepted into the result row by row, and the
//! result is written out as plain text again.

pub mod model;
pub mod engine;
pub mod text;
pub mod events;
pub mod parser;
pub mod layout;
pub mod screen;

pub use model::{Change, Column, Context, Line, Row};
pub use engine::{move_down, move_up, process_change, serialize};
pub use events::{command, handle_events, Command, Event, Key, Outcome};
pub use layout::{layout, Area, Panes};
pub use parser::parse_input_file;
pub use screen::{pad, render, Cell, Panels};
