//! What the three panels show: a read-only picture of the document.

use vstd::prelude::*;
use vstd::utf8::encode_utf8;
use crate::layout::Panes;
use crate::model::{Change, Context, Line, Row};
use crate::text::run;

verus! {

/// The number of bytes that `s` takes as UTF-8.
pub open spec fn byte_len(s: Seq<char>) -> nat {
    encode_utf8(s).len()
}

/// `s` filled up with spaces to `len` bytes; `s` itself where it is that
/// long already.
pub open spec fn padded(s: Seq<char>, len: nat) -> Seq<char> {
    if byte_len(s) >= len {
        s
    } else {
        s + run(' ', (len - byte_len(s)) as nat)
    }
}

/// A space at the end makes a text one byte longer.
pub proof fn lemma_space_is_one_byte(s: Seq<char>)
    ensures
        byte_len(s.push(' ')) == byte_len(s) + 1,
    decreases s.len(),
{
    let longer = s.push(' ');
    if s.len() == 0 {
        assert(longer.drop_first() =~= Seq::<char>::empty());
        assert(encode_utf8(longer.drop_first()).len() == 0);
        assert(encode_utf8(s).len() == 0);
    } else {
        lemma_space_is_one_byte(s.drop_first());
        assert(longer.drop_first() =~= s.drop_first().push(' '));
    }
}

/// Fills `string` up with spaces until it is `len` bytes long. A string that
/// is that long already comes back as it is.
pub fn pad(string: String, len: usize) -> (filled: String)
    ensures
        filled@ == padded(string@, len as nat),
{
    let mut filled = string;
    let ghost start = filled@;
    let ghost mut spaces: nat = 0;
    proof {
        assert(start + run(' ', 0) =~= start);
    }
    while filled.as_str().as_bytes().len() < len
        invariant
            filled@ == start + run(' ', spaces),
            byte_len(filled@) == byte_len(start) + spaces,
            spaces == 0 || byte_len(start) + spaces <= len,
        decreases len - byte_len(filled@),
    {
        proof {
            lemma_space_is_one_byte(filled@);
            assert((start + run(' ', spaces)).push(' ') =~= start + run(' ', spaces + 1));
            spaces = spaces + 1;
        }
        filled.push(' ');
    }
    filled
}

/// One row of a panel as it is shown.
pub struct Cell {
    /// The text, filled up to the panel's width.
    pub text: String,
    /// The treatment of the text: plain, as an addition, or as a deletion.
    pub change: Change,
    /// Whether the cursor stands on the row.
    pub current: bool,
}

/// What a [`Cell`] stands for.
pub struct Shown {
    pub text: Seq<char>,
    pub change: Change,
    pub current: bool,
}

impl View for Cell {
    type V = Shown;

    open spec fn view(&self) -> Shown {
        Shown { text: self.text@, change: self.change, current: self.current }
    }
}

/// What a vector of cells stands for, in order.
pub open spec fn shown(cells: Seq<Cell>) -> Seq<Shown> {
    Seq::new(cells.len(), |i: int| cells[i]@)
}

/// The three panels, from left to right.
pub struct Panels {
    pub local: Vec<Cell>,
    pub result: Vec<Cell>,
    pub incoming: Vec<Cell>,
}

/// A row of a side panel: its text filled up to `width`, treated according
/// to its change.
pub open spec fn side_cell(row: Row, current: bool, width: nat) -> Shown {
    Shown { text: padded(row.value, width), change: row.change, current }
}

/// A row of the result panel: its text filled up to `width`, always plain.
pub open spec fn result_cell(row: Row, current: bool, width: nat) -> Shown {
    Shown { text: padded(row.value, width), change: Change::Unchanged, current }
}

/// A side panel: one cell for each row, the one under the cursor marked.
pub open spec fn side_panel(rows: Seq<Row>, cursor: nat, width: nat) -> Seq<Shown> {
    Seq::new(rows.len(), |i: int| side_cell(rows[i], i == cursor, width))
}

/// The result panel: one cell for each row that is not deleted, in order,
/// the one under the cursor marked if it is shown.
pub open spec fn result_panel(rows: Seq<Row>, cursor: nat, width: nat) -> Seq<Shown>
    decreases rows.len(),
{
    if rows.len() == 0 {
        Seq::empty()
    } else if rows.last().change == Change::Deletion {
        result_panel(rows.drop_last(), cursor, width)
    } else {
        result_panel(rows.drop_last(), cursor, width).push(
            result_cell(rows.last(), rows.len() - 1 == cursor, width),
        )
    }
}

/// The cells of a side column.
fn side_cells(lines: &Vec<Line>, cursor: usize, width: usize) -> (cells: Vec<Cell>)
    ensures
        shown(cells@) == side_panel(crate::model::rows(lines@), cursor as nat, width as nat),
{
    let mut cells: Vec<Cell> = Vec::new();
    let mut i: usize = 0;
    while i < lines.len()
        invariant
            i <= lines@.len(),
            cells@.len() == i,
            forall|j: int|
                0 <= j < i ==> cells@[j]@ == side_cell(lines@[j]@, j == cursor, width as nat),
        decreases lines@.len() - i,
    {
        let text = pad(lines[i].value.clone(), width);
        cells.push(Cell { text, change: lines[i].change, current: i == cursor });
        i += 1;
    }
    proof {
        assert(shown(cells@) =~= side_panel(
            crate::model::rows(lines@),
            cursor as nat,
            width as nat,
        ));
    }
    cells
}

/// The cells of the result column.
fn result_cells(lines: &Vec<Line>, cursor: usize, width: usize) -> (cells: Vec<Cell>)
    ensures
        shown(cells@) == result_panel(crate::model::rows(lines@), cursor as nat, width as nat),
{
    let ghost rows = crate::model::rows(lines@);
    let mut cells: Vec<Cell> = Vec::new();
    let mut i: usize = 0;
    proof {
        assert(rows.take(0) =~= Seq::<Row>::empty());
        assert(shown(cells@) =~= Seq::<Shown>::empty());
    }
    while i < lines.len()
        invariant
            i <= lines@.len(),
            rows == crate::model::rows(lines@),
            shown(cells@) == result_panel(rows.take(i as int), cursor as nat, width as nat),
        decreases lines@.len() - i,
    {
        proof {
            assert(rows.take(i + 1).drop_last() =~= rows.take(i as int));
            assert(rows.take(i + 1).last() == lines@[i as int]@);
        }
        if lines[i].change != Change::Deletion {
            let text = pad(lines[i].value.clone(), width);
            let cell = Cell { text, change: Change::Unchanged, current: i == cursor };
            proof {
                assert(shown(cells@.push(cell)) =~= shown(cells@).push(cell@));
            }
            cells.push(cell);
        }
        i += 1;
    }
    proof {
        assert(rows.take(i as int) =~= rows);
    }
    cells
}

/// The picture of the document in panels of the widths that `panes` gives.
///
/// The side panels show every row, treated according to its change. The
/// result panel shows the rows that are not deleted, all plain. In each
/// panel the row under the cursor is marked. The document is only read.
pub fn render(ctx: &Context, panes: &Panes) -> (panels: Panels)
    ensures
        shown(panels.local@) == side_panel(
            ctx.local_rows(),
            ctx.current_line as nat,
            panes.local.width as nat,
        ),
        shown(panels.result@) == result_panel(
            ctx.result_rows(),
            ctx.current_line as nat,
            panes.result.width as nat,
        ),
        shown(panels.incoming@) == side_panel(
            ctx.incoming_rows(),
            ctx.current_line as nat,
            panes.incoming.width as nat,
        ),
{
    Panels {
        local: side_cells(&ctx.local_changes, ctx.current_line, panes.local.width as usize),
        result: result_cells(&ctx.result, ctx.current_line, panes.result.width as usize),
        incoming: side_cells(
            &ctx.incoming_changes,
            ctx.current_line,
            panes.incoming.width as usize,
        ),
    }
}

} // verus!
