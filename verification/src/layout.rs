//! Where the panels stand on the screen.

use vstd::prelude::*;
use tui::layout::{Constraint, Direction, Layout, Rect};

verus! {

/// A rectangle of the screen, in character cells.
#[derive(Debug, Clone, Copy, PartialEq, Eq, Structural)]
pub struct Area {
    pub x: u16,
    pub y: u16,
    pub width: u16,
    pub height: u16,
}

/// The direction in which an area is cut into parts.
#[derive(Debug, Clone, Copy, PartialEq, Eq, Structural)]
pub enum Axis {
    Horizontal,
    Vertical,
}

/// How much of an area a part asks for.
#[derive(Debug, Clone, Copy, PartialEq, Eq, Structural)]
pub enum Extent {
    /// A share of the area, in hundredths.
    Percentage(u16),
    /// So many cells.
    Length(u16),
    /// At least so many cells.
    Min(u16),
}

/// The side of `area` that a cut along `axis` divides.
pub open spec fn along(axis: Axis, area: Area) -> u16 {
    match axis {
        Axis::Horizontal => area.width,
        Axis::Vertical => area.height,
    }
}

/// `area` can be cut along `axis` into parts of `extents`: it ends within
/// the largest screen, and every share of its side can be computed in 16
/// bits.
pub open spec fn splittable(axis: Axis, extents: Seq<Extent>, area: Area) -> bool {
    &&& area.x + area.width <= u16::MAX
    &&& area.y + area.height <= u16::MAX
    &&& forall|i: int|
        0 <= i < extents.len() ==> (#[trigger] extents[i] matches Extent::Percentage(p) ==> p
            * along(axis, area) <= u16::MAX)
}

/// Cuts `area` with `tui::layout::Layout::split`, with no margin.
///
/// The parts are what tui's constraint solver settles on, which is not fixed
/// by the arguments alone; all that is claimed is that there is one part for
/// each extent, in order. Left out are the areas on which the split fails: a
/// share is computed as the percentage times the side in 16 bits, and an area
/// that reaches beyond the largest screen cannot hold its parts.
#[verifier::external_body]
fn split(axis: Axis, extents: &Vec<Extent>, area: Area) -> (parts: Vec<Area>)
    requires
        splittable(axis, extents@, area),
    ensures
        parts@.len() == extents@.len(),
{
    let constraints: Vec<Constraint> = extents.iter().map(|e| match *e {
        Extent::Percentage(p) => Constraint::Percentage(p),
        Extent::Length(l) => Constraint::Length(l),
        Extent::Min(m) => Constraint::Min(m),
    }).collect();
    let direction = match axis {
        Axis::Horizontal => Direction::Horizontal,
        Axis::Vertical => Direction::Vertical,
    };
    let rect = Rect { x: area.x, y: area.y, width: area.width, height: area.height };
    let parts = Layout::default().direction(direction).constraints(constraints).split(rect);
    parts.iter().map(|r| Area { x: r.x, y: r.y, width: r.width, height: r.height }).collect()
}

/// The areas of the screen: the row of the three panels, the row of the
/// controls under it, and the three panels side by side.
#[derive(Debug, Clone, Copy, PartialEq, Eq, Structural)]
pub struct Panes {
    pub top: Area,
    pub controls: Area,
    pub local: Area,
    pub result: Area,
    pub incoming: Area,
}

/// The rows of a screen of `height` lines: the panels take all but three
/// lines, the controls at least three.
pub open spec fn row_extents(height: u16) -> Seq<Extent> {
    seq![Extent::Length((height - 3) as u16), Extent::Min(3)]
}

/// The columns of the panels' row: 30, 40 and 30 hundredths of its width.
pub open spec fn column_extents() -> Seq<Extent> {
    seq![Extent::Percentage(30), Extent::Percentage(40), Extent::Percentage(30)]
}

/// The screen `size` can be laid out: it has the three lines of the controls,
/// ends within the largest screen, and is narrow enough for every share of
/// its width to be computed in 16 bits, which 1638 columns still are.
pub open spec fn fits(size: Area) -> bool {
    &&& size.height >= 3
    &&& splittable(Axis::Vertical, row_extents(size.height), size)
    &&& splittable(Axis::Horizontal, column_extents(), size)
}

/// `area` ends within the largest screen.
pub open spec fn on_screen(area: Area) -> bool {
    area.x + area.width <= u16::MAX && area.y + area.height <= u16::MAX
}

/// `part` covers no cell outside `area`.
pub open spec fn lies_within(part: Area, area: Area) -> bool {
    &&& area.x <= part.x
    &&& part.x + part.width <= area.x + area.width
    &&& area.y <= part.y
    &&& part.y + part.height <= area.y + area.height
}

/// `v`, or the nearer of `low` and `high` where `v` is not between them.
pub open spec fn clamped(v: int, low: int, high: int) -> int {
    if v < low {
        low
    } else if v > high {
        high
    } else {
        v
    }
}

/// Where a stretch of `length` cells from `start` ends, and the edge of the
/// largest screen where it would end beyond that.
pub open spec fn far_end(start: u16, length: u16) -> int {
    if start + length <= u16::MAX {
        start + length
    } else {
        u16::MAX as int
    }
}

/// What is left of `part` inside `within`: each of its edges moved to the
/// nearest place that `within` still covers. A part that lies outside
/// altogether is left with no cell, at the edge of `within` next to it.
pub open spec fn clipped(part: Area, within: Area) -> Area {
    let left = clamped(part.x as int, within.x as int, far_end(within.x, within.width));
    let right = clamped(part.x + part.width, left, far_end(within.x, within.width));
    let top = clamped(part.y as int, within.y as int, far_end(within.y, within.height));
    let bottom = clamped(part.y + part.height, top, far_end(within.y, within.height));
    Area {
        x: left as u16,
        y: top as u16,
        width: (right - left) as u16,
        height: (bottom - top) as u16,
    }
}

/// Where a stretch of `length` cells from `start` ends on the screen.
fn end_of(start: u16, length: u16) -> (end: u32)
    ensures
        end == far_end(start, length),
{
    let sum: u32 = start as u32 + length as u32;
    if sum <= 65535 {
        sum
    } else {
        65535
    }
}

/// `v` held between `low` and `high`.
fn clamp_to(v: u32, low: u32, high: u32) -> (held: u32)
    ensures
        held == clamped(v as int, low as int, high as int),
{
    if v < low {
        low
    } else if v > high {
        high
    } else {
        v
    }
}

/// Cuts `part` down to what lies inside `within`.
///
/// What is kept covers no cell outside `within` and ends within the largest
/// screen. A part that lies inside already is kept as it is.
pub fn clip(part: Area, within: Area) -> (kept: Area)
    ensures
        kept == clipped(part, within),
        lies_within(kept, within),
        on_screen(kept),
        lies_within(part, within) && on_screen(part) ==> kept == part,
{
    let right_edge: u32 = end_of(within.x, within.width);
    let bottom_edge: u32 = end_of(within.y, within.height);
    let left: u32 = clamp_to(part.x as u32, within.x as u32, right_edge);
    let right: u32 = clamp_to(part.x as u32 + part.width as u32, left, right_edge);
    let top: u32 = clamp_to(part.y as u32, within.y as u32, bottom_edge);
    let bottom: u32 = clamp_to(part.y as u32 + part.height as u32, top, bottom_edge);
    Area {
        x: left as u16,
        y: top as u16,
        width: (right - left) as u16,
        height: (bottom - top) as u16,
    }
}

/// The panes made of the rows and the columns that the screen was cut into:
/// the two rows from top to bottom, the three columns from left to right.
/// Any other number of rows or columns makes no panes.
pub fn panes_of(rows: &Vec<Area>, columns: &Vec<Area>) -> (panes: Option<Panes>)
    ensures
        panes == if rows@.len() == 2 && columns@.len() == 3 {
            Some(
                Panes {
                    top: rows@[0],
                    controls: rows@[1],
                    local: columns@[0],
                    result: columns@[1],
                    incoming: columns@[2],
                },
            )
        } else {
            None
        },
{
    if rows.len() == 2 && columns.len() == 3 {
        Some(
            Panes {
                top: rows[0],
                controls: rows[1],
                local: columns[0],
                result: columns[1],
                incoming: columns[2],
            },
        )
    } else {
        None
    }
}

/// Whether `top` can be cut into the three columns of the panels.
pub fn can_hold_columns(top: Area) -> (b: bool)
    ensures
        b == splittable(Axis::Horizontal, column_extents(), top),
{
    let fits: bool = top.x <= u16::MAX - top.width && top.y <= u16::MAX - top.height && top.width
        <= u16::MAX / 40;
    proof {
        let wanted = column_extents();
        assert(wanted[0] == Extent::Percentage(30));
        assert(wanted[1] == Extent::Percentage(40));
        assert(wanted[2] == Extent::Percentage(30));
        if fits {
            assert forall|i: int| 0 <= i < wanted.len() implies (
            #[trigger] wanted[i] matches Extent::Percentage(p) ==> p * along(Axis::Horizontal, top)
                <= u16::MAX) by {
                assert(30 * top.width <= u16::MAX);
                assert(40 * top.width <= u16::MAX);
            }
        }
    }
    fits
}

/// Lays out a screen of `size`: two rows, the upper one for the panels and
/// the lower one, of three lines, for the controls; the upper row cut into
/// three columns of 30, 40 and 30 hundredths.
///
/// Every screen that fits gets its panes, and no other does. Each row is
/// what the cut gave it, cut down to the screen, and each column what the
/// cut of the upper row gave it, cut down to that row: a part that the cut
/// placed inside stays as it is, and no pane covers a cell that the screen
/// does not have.
pub fn layout(size: Area) -> (panes: Option<Panes>)
    ensures
        panes is Some <==> fits(size),
        panes matches Some(p) ==> {
            &&& lies_within(p.top, size)
            &&& lies_within(p.controls, size)
            &&& lies_within(p.local, p.top)
            &&& lies_within(p.result, p.top)
            &&& lies_within(p.incoming, p.top)
        },
{
    if size.height < 3 || !can_hold_columns(size) {
        return None;
    }
    let across: Vec<Extent> = vec![Extent::Length(size.height - 3), Extent::Min(3)];
    assert(across@ =~= row_extents(size.height));
    let rows = split(Axis::Vertical, &across, size);
    let top = clip(rows[0], size);
    let controls = clip(rows[1], size);
    let down: Vec<Extent> = vec![
        Extent::Percentage(30),
        Extent::Percentage(40),
        Extent::Percentage(30),
    ];
    proof {
        let wanted = column_extents();
        assert(down@ =~= wanted);
        assert(wanted[1] == Extent::Percentage(40));
        assert(40 * size.width <= u16::MAX);
        assert forall|i: int| 0 <= i < wanted.len() implies (
        #[trigger] wanted[i] matches Extent::Percentage(p) ==> p * along(Axis::Horizontal, top)
            <= u16::MAX) by {
            assert(30 * top.width <= u16::MAX);
            assert(40 * top.width <= u16::MAX);
        }
    }
    let columns = split(Axis::Horizontal, &down, top);
    let kept_rows: Vec<Area> = vec![top, controls];
    let kept_columns: Vec<Area> = vec![
        clip(columns[0], top),
        clip(columns[1], top),
        clip(columns[2], top),
    ];
    panes_of(&kept_rows, &kept_columns)
}

} // verus!
