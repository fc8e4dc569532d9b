//! Navigation, acceptance of a side, and writing the result out.

use vstd::prelude::*;
use crate::model::{rows, Change, Column, Context, Line, Row};

verus! {

/// The cursor after one step down over `len` rows: one further, unless it
/// already stands on the last row or there is no row at all.
pub open spec fn cursor_below(cursor: usize, len: nat) -> usize {
    if cursor + 1 < len {
        (cursor + 1) as usize
    } else {
        cursor
    }
}

/// The cursor after one step up: one back, unless it already stands on the
/// first row.
pub open spec fn cursor_above(cursor: usize) -> usize {
    if cursor > 0 {
        (cursor - 1) as usize
    } else {
        cursor
    }
}

/// Moves the cursor one row down, and leaves it where it is on the last row
/// and in an empty document.
pub fn move_down(ctx: &mut Context)
    ensures
        final(ctx).current_line == cursor_below(old(ctx).current_line, old(ctx).result@.len()),
        old(ctx).current_line + 1 >= old(ctx).result@.len() ==> final(ctx).current_line == old(
            ctx,
        ).current_line,
        final(ctx).file_name == old(ctx).file_name,
        final(ctx).local_changes == old(ctx).local_changes,
        final(ctx).incoming_changes == old(ctx).incoming_changes,
        final(ctx).result == old(ctx).result,
        final(ctx).aligned() == old(ctx).aligned(),
        old(ctx).cursor_in_range() ==> final(ctx).cursor_in_range(),
{
    let len: usize = ctx.result.len();
    if len > 0 && ctx.current_line < len - 1 {
        ctx.current_line += 1;
    }
}

/// Moves the cursor one row up, and leaves it where it is on the first row.
pub fn move_up(ctx: &mut Context)
    ensures
        final(ctx).current_line == cursor_above(old(ctx).current_line),
        old(ctx).current_line == 0 ==> final(ctx).current_line == 0,
        final(ctx).file_name == old(ctx).file_name,
        final(ctx).local_changes == old(ctx).local_changes,
        final(ctx).incoming_changes == old(ctx).incoming_changes,
        final(ctx).result == old(ctx).result,
        final(ctx).aligned() == old(ctx).aligned(),
        old(ctx).cursor_in_range() ==> final(ctx).cursor_in_range(),
{
    if ctx.current_line > 0 {
        ctx.current_line -= 1;
    }
}

/// The result row after the row `side` of a side column was accepted over
/// `current`: an addition replaces it, a deletion marks it as deleted and
/// keeps its text, and an unchanged row leaves it as it is.
pub open spec fn accepted_row(side: Row, current: Row) -> Row {
    match side.change {
        Change::Addition => Row { value: side.value, change: Change::Addition },
        Change::Deletion => Row { value: current.value, change: Change::Deletion },
        Change::Unchanged => current,
    }
}

/// The result column after the row at `cursor` of the side column `side` was
/// accepted. Where `cursor` names no row in both columns, nothing changes.
pub open spec fn accepted(side: Seq<Row>, result: Seq<Row>, cursor: int) -> Seq<Row> {
    if 0 <= cursor < side.len() && cursor < result.len() {
        result.update(cursor, accepted_row(side[cursor], result[cursor]))
    } else {
        result
    }
}

/// The rows of the column that `column` names.
pub open spec fn column_rows(ctx: &Context, column: Column) -> Seq<Row> {
    match column {
        Column::Left => ctx.local_rows(),
        Column::Middle => ctx.result_rows(),
        Column::Right => ctx.incoming_rows(),
    }
}

/// Accepts the row under the cursor from the local side (`Column::Left`) or
/// from the incoming side (`Column::Right`) into the result.
///
/// Only the result row under the cursor can change. In a document without
/// rows, and wherever the cursor names no row, nothing changes.
pub fn process_change(column: Column, ctx: &mut Context)
    requires
        column != Column::Middle,
    ensures
        final(ctx).result_rows() == accepted(
            column_rows(old(ctx), column),
            old(ctx).result_rows(),
            old(ctx).current_line as int,
        ),
        final(ctx).result@.len() == old(ctx).result@.len(),
        final(ctx).current_line == old(ctx).current_line,
        final(ctx).file_name == old(ctx).file_name,
        final(ctx).local_changes == old(ctx).local_changes,
        final(ctx).incoming_changes == old(ctx).incoming_changes,
        final(ctx).aligned() == old(ctx).aligned(),
        final(ctx).cursor_in_range() == old(ctx).cursor_in_range(),
{
    let at: usize = ctx.current_line;
    let side: &Vec<Line> = match column {
        Column::Left => &ctx.local_changes,
        _ => &ctx.incoming_changes,
    };
    if at < side.len() && at < ctx.result.len() {
        let made: Option<Line> = match side[at].change {
            Change::Addition => Some(
                Line { value: side[at].value.clone(), change: Change::Addition },
            ),
            Change::Deletion => Some(
                Line { value: ctx.result[at].value.clone(), change: Change::Deletion },
            ),
            Change::Unchanged => None,
        };
        match made {
            Some(line) => {
                proof {
                    assert(rows(ctx.result@.update(at as int, line)) =~= ctx.result_rows().update(
                        at as int,
                        line@,
                    ));
                }
                ctx.result.set(at, line);
            },
            None => {
                proof {
                    assert(ctx.result_rows().update(at as int, ctx.result_rows()[at as int])
                        =~= ctx.result_rows());
                }
            },
        }
    }
}

/// Accepting a side twice at one row, with no step between, gives the
/// result that accepting it once gives.
pub proof fn lemma_accept_idempotent(side: Seq<Row>, result: Seq<Row>, cursor: int)
    ensures
        accepted(side, accepted(side, result, cursor), cursor) == accepted(side, result, cursor),
{
    assert(accepted(side, accepted(side, result, cursor), cursor) =~= accepted(
        side,
        result,
        cursor,
    ));
}

/// Accepting a side leaves every row but the one under the cursor as it was,
/// and a row that the side has unchanged stays as it was too.
pub proof fn lemma_accept_touches_one_row(side: Seq<Row>, result: Seq<Row>, cursor: int)
    ensures
        accepted(side, result, cursor).len() == result.len(),
        forall|i: int|
            0 <= i < result.len() && i != cursor ==> accepted(side, result, cursor)[i] == result[i],
        0 <= cursor < side.len() && side[cursor].change == Change::Unchanged ==> accepted(
            side,
            result,
            cursor,
        ) == result,
{
    if 0 <= cursor < side.len() && cursor < result.len() && side[cursor].change
        == Change::Unchanged {
        assert(accepted(side, result, cursor) =~= result);
    }
}

/// The text that a result column is written out as: the rows in order, each
/// followed by a line feed, without the rows that are deleted.
pub open spec fn written(result: Seq<Row>) -> Seq<char>
    decreases result.len(),
{
    if result.len() == 0 {
        Seq::empty()
    } else if result.last().change == Change::Deletion {
        written(result.drop_last())
    } else {
        written(result.drop_last()) + result.last().value + seq!['\n']
    }
}

/// The text of the resolved file: every result row that is not deleted, in
/// order, each followed by a line feed. A row that was never resolved is
/// written as it stands.
pub fn serialize(ctx: &Context) -> (content: String)
    ensures
        content@ == written(ctx.result_rows()),
{
    let mut content = String::new();
    let mut i: usize = 0;
    proof {
        assert(ctx.result_rows().take(0) =~= Seq::<Row>::empty());
    }
    while i < ctx.result.len()
        invariant
            i <= ctx.result@.len(),
            content@ == written(ctx.result_rows().take(i as int)),
        decreases ctx.result@.len() - i,
    {
        proof {
            assert(ctx.result_rows().take(i + 1).drop_last() =~= ctx.result_rows().take(i as int));
            assert(ctx.result_rows().take(i + 1).last() == ctx.result@[i as int]@);
        }
        if ctx.result[i].change != Change::Deletion {
            content.append(ctx.result[i].value.as_str());
            content.push('\n');
            proof {
                let before = written(ctx.result_rows().take(i as int));
                let value = ctx.result@[i as int]@.value;
                assert((before + value).push('\n') =~= before + value + seq!['\n']);
            }
        }
        i += 1;
    }
    proof {
        assert(ctx.result_rows().take(i as int) =~= ctx.result_rows());
    }
    content
}

/// Two result columns that differ in one row only, which is deleted in
/// both, are written out as the same text.
pub proof fn lemma_written_skips_deleted(result: Seq<Row>, at: int, one: Row, other: Row)
    requires
        0 <= at < result.len(),
        one.change == Change::Deletion,
        other.change == Change::Deletion,
    ensures
        written(result.update(at, one)) == written(result.update(at, other)),
    decreases result.len(),
{
    let a = result.update(at, one);
    let b = result.update(at, other);
    if at == result.len() - 1 {
        assert(a.drop_last() =~= b.drop_last());
    } else {
        let shorter = result.drop_last();
        lemma_written_skips_deleted(shorter, at, one, other);
        assert(a.drop_last() =~= shorter.update(at, one));
        assert(b.drop_last() =~= shorter.update(at, other));
    }
}

/// The side accepted last decides: where the second side has a change at the
/// cursor, the text written out after both accepts is the text written out
/// after the second alone, and so is the whole result column where that
/// change is an addition.
pub proof fn lemma_last_accept_wins(
    first: Seq<Row>,
    second: Seq<Row>,
    result: Seq<Row>,
    cursor: int,
)
    requires
        0 <= cursor < second.len(),
        second[cursor].change != Change::Unchanged,
    ensures
        written(accepted(second, accepted(first, result, cursor), cursor)) == written(
            accepted(second, result, cursor),
        ),
        second[cursor].change == Change::Addition ==> accepted(
            second,
            accepted(first, result, cursor),
            cursor,
        ) == accepted(second, result, cursor),
{
    let between = accepted(first, result, cursor);
    let both = accepted(second, between, cursor);
    let alone = accepted(second, result, cursor);
    if cursor < result.len() {
        if second[cursor].change == Change::Addition {
            assert(both =~= alone);
        } else {
            assert(both =~= result.update(cursor, both[cursor]));
            assert(alone =~= result.update(cursor, alone[cursor]));
            lemma_written_skips_deleted(result, cursor, both[cursor], alone[cursor]);
        }
    } else {
        assert(both =~= alone);
    }
}

} // verus!
