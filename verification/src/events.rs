//! From what the operator does to what happens to the document.

use vstd::prelude::*;
use crate::engine::{
    accepted, cursor_above, cursor_below, move_down, move_up, process_change, serialize, written,
};
use crate::model::{Column, Context};

verus! {

/// A key as far as the tool tells keys apart.
#[derive(Debug, Clone, Copy, PartialEq, Eq, Structural)]
pub enum Key {
    Char(char),
    Down,
    Up,
    Other,
}

/// What the terminal reports.
#[derive(Debug, Clone, Copy, PartialEq, Eq, Structural)]
pub enum Event {
    Key(Key),
    Mouse,
    Resize,
}

/// What the operator asks for.
#[derive(Debug, Clone, Copy, PartialEq, Eq, Structural)]
pub enum Command {
    Quit,
    AcceptLocal,
    AcceptIncoming,
    WriteFile,
    CursorUp,
    CursorDown,
    Ignored,
}

/// The command that an event stands for: `q` quits, `l` accepts the local
/// side, `r` the incoming side, `w` writes the file, the arrows move the
/// cursor. Every other key, the mouse and a change of the screen's size ask
/// for nothing.
pub open spec fn command_of(event: Event) -> Command {
    match event {
        Event::Key(Key::Char('q')) => Command::Quit,
        Event::Key(Key::Char('l')) => Command::AcceptLocal,
        Event::Key(Key::Char('r')) => Command::AcceptIncoming,
        Event::Key(Key::Char('w')) => Command::WriteFile,
        Event::Key(Key::Down) => Command::CursorDown,
        Event::Key(Key::Up) => Command::CursorUp,
        _ => Command::Ignored,
    }
}

/// The command that `event` stands for.
pub fn command(event: Event) -> (asked: Command)
    ensures
        asked == command_of(event),
{
    match event {
        Event::Key(Key::Char(c)) => {
            if c == 'q' {
                Command::Quit
            } else if c == 'l' {
                Command::AcceptLocal
            } else if c == 'r' {
                Command::AcceptIncoming
            } else if c == 'w' {
                Command::WriteFile
            } else {
                Command::Ignored
            }
        },
        Event::Key(Key::Down) => Command::CursorDown,
        Event::Key(Key::Up) => Command::CursorUp,
        _ => Command::Ignored,
    }
}

/// What is left to do after an event was handled.
pub struct Outcome {
    /// Whether the session goes on.
    pub is_running: bool,
    /// The text to write to the file, where writing was asked for.
    pub write: Option<String>,
}

/// `after` is the document that `command` makes of `before`. The side
/// columns and the file's name never change; only the arrows move the
/// cursor, and only an accept touches the result.
pub open spec fn follows(before: &Context, command: Command, after: &Context) -> bool {
    &&& after.file_name == before.file_name
    &&& after.local_changes == before.local_changes
    &&& after.incoming_changes == before.incoming_changes
    &&& after.current_line == match command {
        Command::CursorUp => cursor_above(before.current_line),
        Command::CursorDown => cursor_below(before.current_line, before.result@.len()),
        _ => before.current_line,
    }
    &&& after.result_rows() == match command {
        Command::AcceptLocal => accepted(
            before.local_rows(),
            before.result_rows(),
            before.current_line as int,
        ),
        Command::AcceptIncoming => accepted(
            before.incoming_rows(),
            before.result_rows(),
            before.current_line as int,
        ),
        _ => before.result_rows(),
    }
}

/// Handles one event: carries out on `ctx` the command that it stands for,
/// and says whether the session goes on and what is to be written.
///
/// Only `q` ends the session. Only `w` asks for a write, of the result as it
/// stands. The columns stay aligned and the cursor stays in range.
pub fn handle_events(ctx: &mut Context, event: Event) -> (outcome: Outcome)
    ensures
        follows(old(ctx), command_of(event), final(ctx)),
        outcome.is_running == (command_of(event) != Command::Quit),
        match outcome.write {
            Some(content) => command_of(event) == Command::WriteFile && content@ == written(
                old(ctx).result_rows(),
            ),
            None => command_of(event) != Command::WriteFile,
        },
        final(ctx).aligned() == old(ctx).aligned(),
        old(ctx).cursor_in_range() ==> final(ctx).cursor_in_range(),
{
    let mut outcome = Outcome { is_running: true, write: None };
    match command(event) {
        Command::Quit => {
            outcome.is_running = false;
        },
        Command::AcceptLocal => {
            process_change(Column::Left, ctx);
        },
        Command::AcceptIncoming => {
            process_change(Column::Right, ctx);
        },
        Command::WriteFile => {
            outcome.write = Some(serialize(ctx));
        },
        Command::CursorDown => {
            move_down(ctx);
        },
        Command::CursorUp => {
            move_up(ctx);
        },
        Command::Ignored => {},
    }
    outcome
}

} // verus!
