//! Drawing rows of cells: what is sent to the display, and how rows are laid over others.

use crate::cell::{cell_columns, columns_of, Cell, Style};
use crate::text::repeated;
use vstd::prelude::*;

verus! {

/// One step of drawing.
#[derive(Debug)]
pub enum DrawOp {
    /// Go back to the display's own colours, without attributes.
    Reset,
    Foreground(u8),
    Background(u8),
    Bold,
    Dim,
    Reverse,
    /// Go to a place on the display.
    MoveTo { x: u16, y: u16 },
    /// Write a text where the display's cursor is.
    Print(String),
    /// Clear the line where the display's cursor is.
    ClearLine,
    /// Clear the line from the display's cursor on.
    ClearRight,
}

/// The view of a drawing step.
pub enum Op {
    Reset,
    Foreground(u8),
    Background(u8),
    Bold,
    Dim,
    Reverse,
    MoveTo { x: u16, y: u16 },
    Print(Seq<char>),
    ClearLine,
    ClearRight,
}

impl View for DrawOp {
    type V = Op;

    open spec fn view(&self) -> Op {
        match self {
            DrawOp::Reset => Op::Reset,
            DrawOp::Foreground(color) => Op::Foreground(*color),
            DrawOp::Background(color) => Op::Background(*color),
            DrawOp::Bold => Op::Bold,
            DrawOp::Dim => Op::Dim,
            DrawOp::Reverse => Op::Reverse,
            DrawOp::MoveTo { x, y } => Op::MoveTo { x: *x, y: *y },
            DrawOp::Print(text) => Op::Print(text@),
            DrawOp::ClearLine => Op::ClearLine,
            DrawOp::ClearRight => Op::ClearRight,
        }
    }
}

/// The views of some drawing steps.
pub open spec fn ops(steps: Seq<DrawOp>) -> Seq<Op> {
    Seq::new(steps.len(), |i: int| steps[i]@)
}

/// Appends a step.
pub(crate) fn push_op(out: &mut Vec<DrawOp>, op: DrawOp)
    ensures
        ops(final(out)@) == ops(old(out)@).push(op@),
{
    let ghost before = ops(out@);
    out.push(op);
    assert(ops(out@) =~= before.push(op@));
}

/// Appends steps.
pub(crate) fn push_ops(out: &mut Vec<DrawOp>, more: Vec<DrawOp>)
    ensures
        ops(final(out)@) == ops(old(out)@) + ops(more@),
{
    let ghost before = ops(out@);
    let mut more: Vec<DrawOp> = more;
    let ghost added = more@;
    out.append(&mut more);
    assert(ops(out@) =~= before + ops(added));
}

/// A coordinate on the display; only its low sixteen bits are used.
pub open spec fn display_coordinate(n: nat) -> u16 {
    (n % 65536) as u16
}

/// A coordinate on the display; only its low sixteen bits are used.
pub fn to_display(n: usize) -> (r: u16)
    ensures
        r == display_coordinate(n as nat),
{
    (n % 65536) as u16
}

// Styles
// ------

/// A step if it is wanted, otherwise none.
pub open spec fn step_if(wanted: bool, op: Op) -> Seq<Op> {
    if wanted {
        seq![op]
    } else {
        Seq::empty()
    }
}

/// The steps that set a style.
pub open spec fn style_ops(style: Style) -> Seq<Op> {
    seq![Op::Reset] + (match style.fg {
        Some(color) => seq![Op::Foreground(color)],
        None => Seq::empty(),
    }) + (match style.bg {
        Some(color) => seq![Op::Background(color)],
        None => Seq::empty(),
    }) + step_if(style.bold, Op::Bold) + step_if(style.dim, Op::Dim) + step_if(
        style.reverse,
        Op::Reverse,
    )
}

/// The steps that set a style, whatever was set before.
pub fn apply_style(style: Style) -> (r: Vec<DrawOp>)
    ensures
        ops(r@) == style_ops(style),
{
    let mut out: Vec<DrawOp> = Vec::new();
    assert(ops(out@) =~= Seq::<Op>::empty());
    push_op(&mut out, DrawOp::Reset);
    match style.fg {
        Some(color) => push_op(&mut out, DrawOp::Foreground(color)),
        None => {},
    }
    match style.bg {
        Some(color) => push_op(&mut out, DrawOp::Background(color)),
        None => {},
    }
    if style.bold {
        push_op(&mut out, DrawOp::Bold);
    }
    if style.dim {
        push_op(&mut out, DrawOp::Dim);
    }
    if style.reverse {
        push_op(&mut out, DrawOp::Reverse);
    }
    assert(ops(out@) =~= style_ops(style));
    out
}

// Rows
// ----

/// Characters of one style that stand side by side.
pub struct Run {
    pub x: nat,
    pub style: Style,
    pub text: Seq<char>,
}

/// The state of drawing a row: the runs so far, the next column, and whether the edge has
/// been reached.
pub struct Drawing {
    pub runs: Seq<Run>,
    pub x: nat,
    pub full: bool,
}

/// Draws one more cell. Continuation cells are skipped; the first cell that does not fit
/// ends the drawing.
pub open spec fn draw_cell(d: Drawing, cell: Cell, max_width: nat) -> Drawing {
    let width = cell_columns(cell.ch);
    if d.full || cell.wide_cont {
        d
    } else if d.x + width > max_width {
        Drawing { full: true, ..d }
    } else if d.runs.len() > 0 && d.runs.last().style == cell.style {
        let last = d.runs.last();
        Drawing {
            runs: d.runs.drop_last().push(Run { text: last.text.push(cell.ch), ..last }),
            x: d.x + width,
            full: false,
        }
    } else {
        Drawing {
            runs: d.runs.push(Run { x: d.x, style: cell.style, text: seq![cell.ch] }),
            x: d.x + width,
            full: false,
        }
    }
}

/// Draws cells from column `start_x` on, up to column `max_width`.
pub open spec fn drawing(start_x: nat, cells: Seq<Cell>, max_width: nat) -> Drawing
    decreases cells.len(),
{
    if cells.len() == 0 {
        Drawing { runs: Seq::empty(), x: start_x, full: false }
    } else {
        draw_cell(drawing(start_x, cells.drop_last(), max_width), cells.last(), max_width)
    }
}

/// The steps that draw a run on line `y`.
pub open spec fn run_ops(run: Run, y: u16) -> Seq<Op> {
    style_ops(run.style) + seq![
        Op::MoveTo { x: display_coordinate(run.x), y },
        Op::Print(run.text),
    ]
}

/// The steps that draw runs on line `y`.
pub open spec fn runs_ops(runs: Seq<Run>, y: u16) -> Seq<Op>
    decreases runs.len(),
{
    if runs.len() == 0 {
        Seq::empty()
    } else {
        runs_ops(runs.drop_last(), y) + run_ops(runs.last(), y)
    }
}

/// The steps that draw cells on line `y`.
pub open spec fn cells_ops(y: u16, start_x: nat, cells: Seq<Cell>, max_width: nat) -> Seq<Op> {
    runs_ops(drawing(start_x, cells, max_width).runs, y)
}

fn flush_run(out: &mut Vec<DrawOp>, y: u16, x: usize, style: Style, text: String)
    ensures
        ops(final(out)@) == ops(old(out)@) + run_ops(Run { x: x as nat, style, text: text@ }, y),
{
    let ghost before = ops(out@);
    let styling: Vec<DrawOp> = apply_style(style);
    push_ops(out, styling);
    push_op(out, DrawOp::MoveTo { x: to_display(x), y });
    let ghost shown = text@;
    push_op(out, DrawOp::Print(text));
    assert(ops(out@) =~= before + run_ops(Run { x: x as nat, style, text: shown }, y));
}

proof fn lemma_full_stays(start_x: nat, cells: Seq<Cell>, max_width: nat, k: int)
    requires
        0 <= k <= cells.len(),
        drawing(start_x, cells.take(k), max_width).full,
    ensures
        drawing(start_x, cells, max_width) == drawing(start_x, cells.take(k), max_width),
    decreases cells.len() - k,
{
    if k < cells.len() {
        assert(cells.take(k + 1).drop_last() =~= cells.take(k));
        lemma_full_stays(start_x, cells, max_width, k + 1);
    } else {
        assert(cells.take(k) =~= cells);
    }
}

/// Draws cells on line `y` from column `start_x` on, as far as they end before column
/// `max_width`. Neighbours of one style are drawn together.
pub fn draw_cells(y: u16, start_x: usize, cells: &[Cell], max_width: usize) -> (r: Vec<DrawOp>)
    ensures
        ops(r@) == cells_ops(y, start_x as nat, cells@, max_width as nat),
{
    let mut out: Vec<DrawOp> = Vec::new();
    let mut x: usize = start_x;
    let mut run_chars: String = String::new();
    let mut run_style: Option<Style> = None;
    let mut run_start: usize = start_x;
    let ghost start = start_x as nat;
    let ghost max = max_width as nat;
    let mut i: usize = 0;
    assert(ops(out@) =~= Seq::<Op>::empty());
    assert(cells@.take(cells@.len() as int) =~= cells@);
    while i < cells.len()
        invariant_except_break
            i <= cells@.len(),
            start == start_x,
            max == max_width,
            cells@.take(cells@.len() as int) == cells@,
            run_style is None ==> run_chars@.len() == 0,
            ({
                let d = drawing(start, cells@.take(i as int), max);
                &&& !d.full
                &&& x == d.x
                &&& match run_style {
                    None => d.runs.len() == 0 && ops(out@) == Seq::<Op>::empty(),
                    Some(style) => {
                        &&& d.runs.len() > 0
                        &&& d.runs.last() == (Run { x: run_start as nat, style, text: run_chars@ })
                        &&& ops(out@) == runs_ops(d.runs.drop_last(), y)
                    },
                }
            }),
        ensures
            ({
                let d = drawing(start, cells@, max);
                match run_style {
                    None => d.runs.len() == 0 && ops(out@) == Seq::<Op>::empty(),
                    Some(style) => {
                        &&& d.runs.len() > 0
                        &&& d.runs.last() == (Run { x: run_start as nat, style, text: run_chars@ })
                        &&& ops(out@) == runs_ops(d.runs.drop_last(), y)
                    },
                }
            }),
        decreases cells@.len() - i,
    {
        let cell: Cell = cells[i];
        let ghost d = drawing(start, cells@.take(i as int), max);
        let ghost next = drawing(start, cells@.take(i + 1), max);
        assert(cells@.take(i + 1).drop_last() =~= cells@.take(i as int));
        assert(cells@.take(i + 1).last() == cell);
        i += 1;
        if cell.wide_cont {
            continue ;
        }
        let width: usize = columns_of(cell.ch);
        if width > max_width || x > max_width - width {
            proof {
                lemma_full_stays(start, cells@, max, i as int);
            }
            break ;
        }
        let mut same: bool = false;
        match run_style {
            Some(style) => {
                if style == cell.style {
                    same = true;
                } else {
                    let mut finished: String = String::new();
                    std::mem::swap(&mut finished, &mut run_chars);
                    flush_run(&mut out, y, run_start, style, finished);
                    assert(ops(out@) == runs_ops(d.runs, y));
                }
            },
            None => {},
        }
        if !same {
            run_style = Some(cell.style);
            run_start = x;
            assert(next.runs.drop_last() =~= d.runs);
        } else {
            assert(next.runs.drop_last() =~= d.runs.drop_last());
        }
        run_chars.push(cell.ch);
        x += width;
        assert(!same ==> run_chars@ =~= seq![cell.ch]);
    }
    match run_style {
        Some(style) => flush_run(&mut out, y, run_start, style, run_chars),
        None => {},
    }
    out
}

/// The columns before the first `count` cells end.
pub open spec fn prefix_columns(cells: Seq<Cell>, count: nat) -> nat
    decreases count,
{
    if count == 0 {
        0
    } else {
        let before = prefix_columns(cells, (count - 1) as nat);
        if count > cells.len() || cells[count - 1].wide_cont {
            before
        } else {
            before + cell_columns(cells[count - 1].ch)
        }
    }
}

/// The number of cells, counted from `from` on, in which two rows agree.
pub open spec fn common_len(left: Seq<Cell>, right: Seq<Cell>, from: int) -> int
    decreases left.len() - from,
{
    if from < left.len() && from < right.len() && left[from] == right[from] {
        1 + common_len(left, right, from + 1)
    } else {
        0
    }
}

/// Whether two rows are the same.
pub(crate) fn same_cells(left: &[Cell], right: &[Cell]) -> (r: bool)
    ensures
        r == (left@ == right@),
{
    if left.len() != right.len() {
        return false;
    }
    let mut i: usize = 0;
    while i < left.len()
        invariant
            i <= left@.len(),
            left@.len() == right@.len(),
            forall|k: int| 0 <= k < i ==> left@[k] == right@[k],
        decreases left@.len() - i,
    {
        if left[i] != right[i] {
            return false;
        }
        i += 1;
    }
    assert(left@ =~= right@);
    true
}

/// The number of cells at the start in which two rows agree.
pub fn common_prefix_len(left: &[Cell], right: &[Cell]) -> (r: usize)
    ensures
        r == common_len(left@, right@, 0),
        r <= left@.len(),
        r <= right@.len(),
{
    let mut i: usize = 0;
    while i < left.len() && i < right.len() && left[i] == right[i]
        invariant
            i <= left@.len(),
            i <= right@.len(),
            common_len(left@, right@, 0) == i + common_len(left@, right@, i as int),
        decreases left@.len() - i,
    {
        i += 1;
    }
    i
}

/// The number of columns of the first `count` cells, up to the largest number there is.
pub fn cell_prefix_width(cells: &[Cell], count: usize) -> (r: usize)
    ensures
        r == (if prefix_columns(cells@, count as nat) <= usize::MAX {
            prefix_columns(cells@, count as nat)
        } else {
            usize::MAX as nat
        }),
{
    let mut sum: usize = 0;
    let mut i: usize = 0;
    let end: usize = if count < cells.len() {
        count
    } else {
        cells.len()
    };
    while i < end
        invariant
            i <= end <= cells@.len(),
            end <= count,
            sum == (if prefix_columns(cells@, i as nat) <= usize::MAX {
                prefix_columns(cells@, i as nat)
            } else {
                usize::MAX as nat
            }),
        decreases end - i,
    {
        if !cells[i].wide_cont {
            sum = sum.saturating_add(columns_of(cells[i].ch));
        }
        i += 1;
    }
    proof {
        lemma_prefix_ends(cells@, count as nat);
    }
    sum
}

proof fn lemma_prefix_ends(cells: Seq<Cell>, count: nat)
    ensures
        count >= cells.len() ==> prefix_columns(cells, count) == prefix_columns(cells, cells.len()),
    decreases count,
{
    if count > cells.len() {
        lemma_prefix_ends(cells, (count - 1) as nat);
    }
}

/// A row with one cell laid over it at column `x`; a wide one takes up the following
/// columns too.
pub open spec fn put_cell(dest: Seq<Cell>, x: int, cell: Cell) -> Seq<Cell> {
    dest.map(
        |i: int, old: Cell|
            if i == x {
                cell
            } else if x < i < x + cell_columns(cell.ch) {
                covered_cell(cell.style)
            } else {
                old
            },
    )
}

/// A cell that is covered by a wide character of the given style.
pub open spec fn covered_cell(style: Style) -> Cell {
    Cell { ch: ' ', style, wide_cont: true }
}

/// A row with the cells from `k` on laid over it, from column `x` up to column `end`.
pub open spec fn overlaid(dest: Seq<Cell>, x: int, end: int, cells: Seq<Cell>, k: int) -> Seq<Cell>
    decreases cells.len() - k,
{
    if k >= cells.len() {
        dest
    } else if cells[k].wide_cont {
        overlaid(dest, x, end, cells, k + 1)
    } else if x + cell_columns(cells[k].ch) > end {
        dest
    } else {
        overlaid(
            put_cell(dest, x, cells[k]),
            x + cell_columns(cells[k].ch),
            end,
            cells,
            k + 1,
        )
    }
}

/// The first column behind those that may be laid over.
pub open spec fn overlay_end(len: nat, x_offset: nat, max_width: nat) -> nat {
    if len <= x_offset + max_width {
        len
    } else {
        x_offset + max_width
    }
}

/// Lays cells over a row from column `x_offset` on, at most `max_width` columns of them.
/// The first cell that does not fit, and those behind it, are left out.
pub fn overlay_cells(dest: &mut [Cell], x_offset: usize, cells: &[Cell], max_width: usize)
    ensures
        final(dest)@ == overlaid(
            old(dest)@,
            x_offset as int,
            overlay_end(old(dest)@.len(), x_offset as nat, max_width as nat) as int,
            cells@,
            0,
        ),
{
    let total: usize = dest.len();
    let end: usize = if x_offset >= total || max_width >= total - x_offset {
        total
    } else {
        x_offset + max_width
    };
    let ghost before = dest@;
    let mut x: usize = x_offset;
    let mut i: usize = 0;
    while i < cells.len()
        invariant_except_break
            i <= cells@.len(),
            dest@.len() == total,
            end <= total,
            overlaid(before, x_offset as int, end as int, cells@, 0) == overlaid(
                dest@,
                x as int,
                end as int,
                cells@,
                i as int,
            ),
        ensures
            dest@ == overlaid(before, x_offset as int, end as int, cells@, 0),
        decreases cells@.len() - i,
    {
        let cell: Cell = cells[i];
        let ghost so_far = dest@;
        i += 1;
        if cell.wide_cont {
            continue ;
        }
        let width: usize = columns_of(cell.ch);
        if width > end || x > end - width {
            break ;
        }
        dest[x] = cell;
        let mut fill: usize = x + 1;
        while fill < x + width
            invariant
                x + 1 <= fill <= x + width <= end,
                end <= total,
                dest@.len() == total,
                so_far.len() == total,
                width == cell_columns(cell.ch),
                forall|k: int|
                    0 <= k < total ==> dest@[k] == (if k == x {
                        cell
                    } else if x < k < fill {
                        covered_cell(cell.style)
                    } else {
                        so_far[k]
                    }),
            decreases x + width - fill,
        {
            dest[fill] = Cell { ch: ' ', style: cell.style, wide_cont: true };
            fill += 1;
        }
        assert(dest@ =~= put_cell(so_far, x as int, cell));
        x += width;
    }
}

/// The steps that blank `width` columns of line `y` from column `x_offset` on.
pub open spec fn clear_ops(y: u16, x_offset: nat, width: nat) -> Seq<Op> {
    if width == 0 {
        Seq::empty()
    } else {
        seq![
            Op::MoveTo { x: display_coordinate(x_offset), y },
            Op::Reset,
            Op::Print(repeated(' ', width)),
        ]
    }
}

/// A text of `count` blanks.
pub(crate) fn blanks(count: usize) -> (r: String)
    ensures
        r@ == repeated(' ', count as nat),
{
    let mut out: String = String::new();
    let mut i: usize = 0;
    while i < count
        invariant
            i <= count,
            out@ =~= repeated(' ', i as nat),
        decreases count - i,
    {
        out.push(' ');
        i += 1;
    }
    out
}

/// Blanks `width` columns of line `y` from column `x_offset` on.
pub fn clear_segment(y: u16, x_offset: usize, width: usize) -> (r: Vec<DrawOp>)
    ensures
        ops(r@) == clear_ops(y, x_offset as nat, width as nat),
{
    let mut out: Vec<DrawOp> = Vec::new();
    assert(ops(out@) =~= Seq::<Op>::empty());
    if width == 0 {
        return out;
    }
    push_op(&mut out, DrawOp::MoveTo { x: to_display(x_offset), y });
    push_op(&mut out, DrawOp::Reset);
    push_op(&mut out, DrawOp::Print(blanks(width)));
    assert(ops(out@) =~= clear_ops(y, x_offset as nat, width as nat));
    out
}

// Laws
// ----

/// Laying cells over a row changes nothing outside the columns that may be laid over, nor
/// the row's length.
pub proof fn overlay_stays_inside(dest: Seq<Cell>, x: int, end: int, cells: Seq<Cell>, k: int)
    requires
        end <= dest.len(),
    ensures
        overlaid(dest, x, end, cells, k).len() == dest.len(),
        forall|i: int|
            0 <= i < dest.len() && (i < x || i >= end) ==> #[trigger] overlaid(
                dest,
                x,
                end,
                cells,
                k,
            )[i] == dest[i],
    decreases cells.len() - k,
{
    if k < cells.len() {
        if cells[k].wide_cont {
            overlay_stays_inside(dest, x, end, cells, k + 1);
        } else if x + cell_columns(cells[k].ch) <= end {
            overlay_stays_inside(
                put_cell(dest, x, cells[k]),
                x + cell_columns(cells[k].ch),
                end,
                cells,
                k + 1,
            );
        }
    }
}

/// Two rows agree in their common start, and differ right behind it unless one of them ends
/// there.
pub proof fn common_start_is_longest(left: Seq<Cell>, right: Seq<Cell>, from: int)
    requires
        0 <= from <= left.len(),
        from <= right.len(),
    ensures
        ({
            let end = from + common_len(left, right, from);
            &&& from <= end <= left.len()
            &&& end <= right.len()
            &&& forall|i: int| from <= i < end ==> left[i] == right[i]
            &&& end < left.len() && end < right.len() ==> left[end] != right[end]
        }),
    decreases left.len() - from,
{
    if from < left.len() && from < right.len() && left[from] == right[from] {
        common_start_is_longest(left, right, from + 1);
    }
}

/// The characters of some runs.
pub open spec fn runs_text(runs: Seq<Run>) -> Seq<char>
    decreases runs.len(),
{
    if runs.len() == 0 {
        Seq::empty()
    } else {
        runs_text(runs.drop_last()) + runs.last().text
    }
}

proof fn lemma_drawing(start_x: nat, cells: Seq<Cell>, max_width: nat)
    ensures
        ({
            let d = drawing(start_x, cells, max_width);
            &&& runs_text(d.runs).is_prefix_of(crate::cell::cell_text(cells))
            &&& !d.full ==> runs_text(d.runs) == crate::cell::cell_text(cells)
            &&& d.x >= start_x
            &&& d.x <= max_width || d.x == start_x
            &&& d.runs.len() > 0 ==> d.x <= max_width
        }),
    decreases cells.len(),
{
    if cells.len() > 0 {
        lemma_drawing(start_x, cells.drop_last(), max_width);
        let before = drawing(start_x, cells.drop_last(), max_width);
        let d = drawing(start_x, cells, max_width);
        let cell = cells.last();
        if !before.full && !cell.wide_cont && before.x + cell_columns(cell.ch) <= max_width {
            if before.runs.len() > 0 && before.runs.last().style == cell.style {
                assert(d.runs.drop_last() =~= before.runs.drop_last());
                assert(runs_text(d.runs) =~= runs_text(before.runs).push(cell.ch));
            } else {
                assert(d.runs.drop_last() =~= before.runs);
                assert(runs_text(d.runs) =~= runs_text(before.runs).push(cell.ch));
            }
        }
    }
}

/// What is drawn is the text of the cells, or its start as far as there is room, and stays
/// before column `max_width`.
pub proof fn drawing_shows_the_text(start_x: nat, cells: Seq<Cell>, max_width: nat)
    ensures
        runs_text(drawing(start_x, cells, max_width).runs).is_prefix_of(
            crate::cell::cell_text(cells),
        ),
        !drawing(start_x, cells, max_width).full ==> runs_text(
            drawing(start_x, cells, max_width).runs,
        ) == crate::cell::cell_text(cells),
        drawing(start_x, cells, max_width).runs.len() > 0 ==> drawing(start_x, cells, max_width).x
            <= max_width,
{
    lemma_drawing(start_x, cells, max_width);
}

} // verus!
