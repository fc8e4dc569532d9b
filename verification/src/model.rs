//! The three columns and the cursor.

use vstd::prelude::*;

verus! {

/// One of the three columns. `Left` is the local side, `Right` the incoming
/// side and `Middle` the result; outside a conflict all three agree.
#[derive(Debug, Clone, Copy, PartialEq, Eq, Structural)]
pub enum Column {
    Left,
    Middle,
    Right,
}

/// How a row relates to the text outside the conflict.
#[derive(Debug, Clone, Copy, PartialEq, Eq, Structural)]
pub enum Change {
    Unchanged,
    Addition,
    Deletion,
}

/// A row of one column.
pub struct Line {
    pub value: String,
    pub change: Change,
}

/// What a [`Line`] stands for: its characters and its classification.
pub struct Row {
    pub value: Seq<char>,
    pub change: Change,
}

impl View for Line {
    type V = Row;

    open spec fn view(&self) -> Row {
        Row { value: self.value@, change: self.change }
    }
}

/// The rows that a column of lines stands for, in order.
pub open spec fn rows(lines: Seq<Line>) -> Seq<Row> {
    Seq::new(lines.len(), |i: int| lines[i]@)
}

/// The document under resolution: three columns and the selected row.
pub struct Context {
    pub file_name: String,
    pub local_changes: Vec<Line>,
    pub incoming_changes: Vec<Line>,
    pub result: Vec<Line>,
    pub current_line: usize,
}

impl Context {
    /// The local column as rows.
    pub open spec fn local_rows(&self) -> Seq<Row> {
        rows(self.local_changes@)
    }

    /// The incoming column as rows.
    pub open spec fn incoming_rows(&self) -> Seq<Row> {
        rows(self.incoming_changes@)
    }

    /// The result column as rows.
    pub open spec fn result_rows(&self) -> Seq<Row> {
        rows(self.result@)
    }

    /// The three columns have one length, so that an index names the same
    /// row in each of them.
    pub open spec fn aligned(&self) -> bool {
        &&& self.local_changes@.len() == self.result@.len()
        &&& self.incoming_changes@.len() == self.result@.len()
    }

    /// The cursor names a row, or rests at 0 where there is none.
    pub open spec fn cursor_in_range(&self) -> bool {
        self.current_line < self.result@.len() || self.current_line == 0
    }
}

} // verus!
