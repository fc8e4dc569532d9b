//! From conflict-marked text to three aligned columns.

use vstd::prelude::*;
use crate::model::{rows, Change, Column, Context, Line, Row};
use crate::engine::written;
use crate::text::{
    joined, lemma_joined_split, lemma_split_joined, lines, plain_line, plainly_ended, run,
    split_lines, starts_with, views,
};

verus! {

/// The region that a marker line opens: the local side after `<<<<<<<`, the
/// incoming side after `=======`, the text outside the conflict after
/// `>>>>>>>`. Only the first seven characters of the line count. A line that
/// is no marker opens nothing.
pub open spec fn marker_of(line: Seq<char>) -> Option<Column> {
    if run('<', 7).is_prefix_of(line) {
        Some(Column::Left)
    } else if run('=', 7).is_prefix_of(line) {
        Some(Column::Right)
    } else if run('>', 7).is_prefix_of(line) {
        Some(Column::Middle)
    } else {
        None
    }
}

/// The region in force after `lines`: the one that the last marker among
/// them opened, and the text outside any conflict where there is no marker.
pub open spec fn region_after(lines: Seq<Seq<char>>) -> Column
    decreases lines.len(),
{
    if lines.len() == 0 {
        Column::Middle
    } else {
        match marker_of(lines.last()) {
            Some(region) => region,
            None => region_after(lines.drop_last()),
        }
    }
}

/// What stands in the result column for a row that is not yet resolved.
pub open spec fn unresolved() -> Seq<char> {
    seq!['#']
}

/// What stands in a side column for a row that only the other side has.
pub open spec fn missing() -> Seq<char> {
    seq!['-']
}

/// The row that `column` gets for a content line read in `region`.
///
/// Outside a conflict every column gets the line itself, unchanged. Inside,
/// the side that the line belongs to gets it as an addition, the other side
/// gets a deletion in its place, and the result gets a row to be resolved.
pub open spec fn row_in(column: Column, region: Column, line: Seq<char>) -> Row {
    if region == Column::Middle {
        Row { value: line, change: Change::Unchanged }
    } else if column == Column::Middle {
        Row { value: unresolved(), change: Change::Unchanged }
    } else if column == region {
        Row { value: line, change: Change::Addition }
    } else {
        Row { value: missing(), change: Change::Deletion }
    }
}

/// The rows that `column` gets for `lines`: one for each line that is no
/// marker, in order, made in the region in force where the line stands.
pub open spec fn parsed_rows(column: Column, lines: Seq<Seq<char>>) -> Seq<Row>
    decreases lines.len(),
{
    if lines.len() == 0 {
        Seq::empty()
    } else {
        let before = lines.drop_last();
        if marker_of(lines.last()) is Some {
            parsed_rows(column, before)
        } else {
            parsed_rows(column, before).push(row_in(column, region_after(before), lines.last()))
        }
    }
}

/// The number of lines among `lines` that are no markers.
pub open spec fn content_count(lines: Seq<Seq<char>>) -> nat
    decreases lines.len(),
{
    if lines.len() == 0 {
        0
    } else if marker_of(lines.last()) is Some {
        content_count(lines.drop_last())
    } else {
        content_count(lines.drop_last()) + 1
    }
}

/// Every column gets as many rows as there are lines that are no markers.
pub proof fn lemma_parsed_len(column: Column, lines: Seq<Seq<char>>)
    ensures
        parsed_rows(column, lines).len() == content_count(lines),
    decreases lines.len(),
{
    if lines.len() > 0 {
        lemma_parsed_len(column, lines.drop_last());
    }
}

/// The rows of one index belong together. Either the row stands outside any
/// conflict, and the three columns hold the same unchanged line; or it stands
/// inside one, and then one side holds the line as an addition, the other
/// side a deletion, and the result a row to be resolved.
pub proof fn lemma_parsed_rows_belong_together(lines: Seq<Seq<char>>, i: int)
    requires
        0 <= i < content_count(lines),
    ensures
        ({
            let local = parsed_rows(Column::Left, lines)[i];
            let result = parsed_rows(Column::Middle, lines)[i];
            let incoming = parsed_rows(Column::Right, lines)[i];
            ||| (local.change == Change::Unchanged && result == local && incoming == local)
            ||| (local.change == Change::Addition && incoming == Row {
                value: missing(),
                change: Change::Deletion,
            } && result == Row { value: unresolved(), change: Change::Unchanged })
            ||| (incoming.change == Change::Addition && local == Row {
                value: missing(),
                change: Change::Deletion,
            } && result == Row { value: unresolved(), change: Change::Unchanged })
        }),
    decreases lines.len(),
{
    let before = lines.drop_last();
    lemma_parsed_len(Column::Left, before);
    lemma_parsed_len(Column::Middle, before);
    lemma_parsed_len(Column::Right, before);
    if i < content_count(before) {
        lemma_parsed_rows_belong_together(before, i);
    }
}

/// The region that `line` opens, if it is a marker.
pub fn marker(line: &str) -> (m: Option<Column>)
    ensures
        m == marker_of(line@),
{
    proof {
        reveal_strlit("<<<<<<<");
        reveal_strlit("=======");
        reveal_strlit(">>>>>>>");
        assert("<<<<<<<"@ =~= run('<', 7));
        assert("======="@ =~= run('=', 7));
        assert(">>>>>>>"@ =~= run('>', 7));
    }
    if starts_with(line, "<<<<<<<") {
        Some(Column::Left)
    } else if starts_with(line, "=======") {
        Some(Column::Right)
    } else if starts_with(line, ">>>>>>>") {
        Some(Column::Middle)
    } else {
        None
    }
}

/// The line that `column` gets for a content line read in `region`.
pub fn line_in(column: Column, region: Column, line: &str) -> (made: Line)
    ensures
        made@ == row_in(column, region, line@),
{
    proof {
        reveal_strlit("#");
        reveal_strlit("-");
        assert("#"@ =~= unresolved());
        assert("-"@ =~= missing());
    }
    if region == Column::Middle {
        Line { value: line.to_owned(), change: Change::Unchanged }
    } else if column == Column::Middle {
        Line { value: "#".to_owned(), change: Change::Unchanged }
    } else if column == region {
        Line { value: line.to_owned(), change: Change::Addition }
    } else {
        Line { value: "-".to_owned(), change: Change::Deletion }
    }
}

/// Reads the conflict-marked text `file` and appends its rows to the three
/// columns of `ctx`.
///
/// Marker lines switch the region and give no row. Every other line gives
/// one row to each column, so columns that were aligned stay aligned. Markers
/// need not be balanced: a region lasts until the next marker or the end of
/// the text.
pub fn parse_input_file(ctx: &mut Context, file: &str)
    ensures
        final(ctx).local_rows() == old(ctx).local_rows() + parsed_rows(
            Column::Left,
            split_lines(file@),
        ),
        final(ctx).result_rows() == old(ctx).result_rows() + parsed_rows(
            Column::Middle,
            split_lines(file@),
        ),
        final(ctx).incoming_rows() == old(ctx).incoming_rows() + parsed_rows(
            Column::Right,
            split_lines(file@),
        ),
        final(ctx).result@.len() == old(ctx).result@.len() + content_count(split_lines(file@)),
        final(ctx).current_line == old(ctx).current_line,
        final(ctx).file_name == old(ctx).file_name,
        old(ctx).aligned() ==> final(ctx).aligned(),
        old(ctx).cursor_in_range() ==> final(ctx).cursor_in_range(),
{
    let all = lines(file);
    let ghost text = views(all@);
    let mut region = Column::Middle;
    let mut i: usize = 0;
    proof {
        assert(text.take(0) =~= Seq::<Seq<char>>::empty());
        assert(ctx.local_rows() + parsed_rows(Column::Left, text.take(0)) =~= ctx.local_rows());
        assert(ctx.result_rows() + parsed_rows(Column::Middle, text.take(0)) =~= ctx.result_rows());
        assert(ctx.incoming_rows() + parsed_rows(Column::Right, text.take(0))
            =~= ctx.incoming_rows());
    }
    while i < all.len()
        invariant
            i <= all@.len(),
            text == views(all@),
            text == split_lines(file@),
            region == region_after(text.take(i as int)),
            ctx.local_rows() == old(ctx).local_rows() + parsed_rows(
                Column::Left,
                text.take(i as int),
            ),
            ctx.result_rows() == old(ctx).result_rows() + parsed_rows(
                Column::Middle,
                text.take(i as int),
            ),
            ctx.incoming_rows() == old(ctx).incoming_rows() + parsed_rows(
                Column::Right,
                text.take(i as int),
            ),
            ctx.current_line == old(ctx).current_line,
            ctx.file_name == old(ctx).file_name,
        decreases all@.len() - i,
    {
        let line = all[i].as_str();
        proof {
            assert(text.take(i + 1).drop_last() =~= text.take(i as int));
            assert(text.take(i + 1).last() == line@);
        }
        match marker(line) {
            Some(opened) => {
                region = opened;
            },
            None => {
                let local = line_in(Column::Left, region, line);
                let result = line_in(Column::Middle, region, line);
                let incoming = line_in(Column::Right, region, line);
                proof {
                    assert(rows(ctx.local_changes@.push(local)) =~= ctx.local_rows().push(local@));
                    assert(rows(ctx.result@.push(result)) =~= ctx.result_rows().push(result@));
                    assert(rows(ctx.incoming_changes@.push(incoming)) =~= ctx.incoming_rows().push(
                        incoming@,
                    ));
                }
                ctx.local_changes.push(local);
                ctx.result.push(result);
                ctx.incoming_changes.push(incoming);
            },
        }
        i += 1;
    }
    proof {
        assert(text.take(i as int) =~= text);
        lemma_parsed_len(Column::Left, text);
        lemma_parsed_len(Column::Middle, text);
        lemma_parsed_len(Column::Right, text);
    }
}

/// No line among `lines` is a marker.
pub open spec fn free_of_markers(lines: Seq<Seq<char>>) -> bool {
    forall|i: int| 0 <= i < lines.len() ==> marker_of(#[trigger] lines[i]) is None
}

/// The rows that stand for `lines` outside any conflict.
pub open spec fn plain_rows(lines: Seq<Seq<char>>) -> Seq<Row> {
    Seq::new(lines.len(), |i: int| Row { value: lines[i], change: Change::Unchanged })
}

/// Lines without a marker give every column the same rows: the lines
/// themselves, unchanged.
pub proof fn lemma_parsed_without_markers(column: Column, lines: Seq<Seq<char>>)
    requires
        free_of_markers(lines),
    ensures
        region_after(lines) == Column::Middle,
        parsed_rows(column, lines) == plain_rows(lines),
    decreases lines.len(),
{
    if lines.len() == 0 {
        assert(parsed_rows(column, lines) =~= plain_rows(lines));
    } else {
        let before = lines.drop_last();
        assert(marker_of(lines.last()) is None);
        assert forall|i: int| 0 <= i < before.len() implies marker_of(#[trigger] before[i])
            is None by {
            assert(before[i] == lines[i]);
        }
        lemma_parsed_without_markers(column, before);
        assert(parsed_rows(column, lines) =~= plain_rows(lines));
    }
}

/// Unchanged rows are written out as their lines, each followed by a line
/// feed.
pub proof fn lemma_written_plain_rows(lines: Seq<Seq<char>>)
    ensures
        written(plain_rows(lines)) == joined(lines),
    decreases lines.len(),
{
    if lines.len() > 0 {
        lemma_written_plain_rows(lines.drop_last());
        assert(plain_rows(lines).drop_last() =~= plain_rows(lines.drop_last()));
    }
}

/// A text without conflict markers that is read and written out at once,
/// with nothing accepted, keeps its lines: the text written out holds the
/// lines of `text`, each followed by a line feed, and reading it again gives
/// the same lines. A line that ends with a carriage return after it was read
/// would lose it on the way, so `text` is to hold none.
pub proof fn lemma_round_trip_lines(text: Seq<char>)
    requires
        free_of_markers(split_lines(text)),
        forall|i: int|
            0 <= i < split_lines(text).len() ==> crate::text::without_cr(
                #[trigger] split_lines(text)[i],
            ) == split_lines(text)[i],
    ensures
        written(parsed_rows(Column::Middle, split_lines(text))) == joined(split_lines(text)),
        split_lines(written(parsed_rows(Column::Middle, split_lines(text)))) == split_lines(text),
{
    let lines = split_lines(text);
    lemma_parsed_without_markers(Column::Middle, lines);
    lemma_written_plain_rows(lines);
    crate::text::lemma_lines_hold_no_newline(text);
    assert forall|i: int| 0 <= i < lines.len() implies plain_line(#[trigger] lines[i]) by {}
    lemma_split_joined(lines);
}

/// A text without conflict markers in which every line ends with a bare line
/// feed is written out, with nothing accepted, as the very same text.
pub proof fn lemma_round_trip_text(text: Seq<char>)
    requires
        free_of_markers(split_lines(text)),
        plainly_ended(text),
    ensures
        written(parsed_rows(Column::Middle, split_lines(text))) == text,
{
    let lines = split_lines(text);
    lemma_parsed_without_markers(Column::Middle, lines);
    lemma_written_plain_rows(lines);
    lemma_joined_split(text);
}

} // verus!
