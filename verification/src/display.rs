//! A display that carries out drawing steps, and what it shows then.

use crate::cell::{cell_columns, plain_style, Cell, Style};
use crate::render::{
    cells_ops, clear_ops, common_len, common_start_is_longest, display_coordinate, draw_cell,
    drawing, overlaid, overlay_stays_inside, prefix_columns, put_cell, run_ops, runs_ops, style_ops,
    Drawing, Op, Run,
};
use crate::pager::{
    drawn_before, page_ops, row_ops, rows_ops, status_drawn, status_ops, Page, Pager, ViewportDims,
};
use crate::screen::blank_row;
use crate::split_model::{
    drawn_row, frame_ops, frame_row_ops, laid_over, part, segment_ops, Focus, Frame, Split,
    SplitDims,
};
use crate::text::repeated;
use vstd::prelude::*;

verus! {

/// A display: its cells, the place where the next character goes, and its style.
#[verifier::ext_equal]
pub struct Display {
    pub lines: Seq<Seq<Cell>>,
    pub x: nat,
    pub y: nat,
    pub style: Style,
}

/// A line with a character written at column `x`. A wide one covers the columns behind.
pub open spec fn painted(line: Seq<Cell>, x: int, ch: char, style: Style) -> Seq<Cell> {
    Seq::new(
        line.len(),
        |i: int|
            if i == x {
                Cell { ch, style, wide_cont: false }
            } else if x < i < x + cell_columns(ch) {
                Cell { ch: ' ', style, wide_cont: true }
            } else {
                line[i]
            },
    )
}

/// The number of columns of a text.
pub open spec fn text_columns(text: Seq<char>) -> nat
    decreases text.len(),
{
    if text.len() == 0 {
        0
    } else {
        text_columns(text.drop_last()) + cell_columns(text.last())
    }
}

/// A line with a text written from column `x` on.
pub open spec fn printed(line: Seq<Cell>, x: nat, text: Seq<char>, style: Style) -> Seq<Cell>
    decreases text.len(),
{
    if text.len() == 0 {
        line
    } else {
        let before = text.drop_last();
        painted(
            printed(line, x, before, style),
            (x + text_columns(before)) as int,
            text.last(),
            style,
        )
    }
}

/// A line that is cleared from column `x` on, on a background.
pub open spec fn cleared(line: Seq<Cell>, x: nat, bg: Option<u8>) -> Seq<Cell> {
    Seq::new(
        line.len(),
        |i: int|
            if i >= x {
                Cell { ch: ' ', style: Style { bg, ..plain_style() }, wide_cont: false }
            } else {
                line[i]
            },
    )
}

impl Display {
    /// Whether the display has this size.
    pub open spec fn has_size(self, width: nat, height: nat) -> bool {
        &&& self.lines.len() == height
        &&& forall|y: int| 0 <= y < height ==> (#[trigger] self.lines[y]).len() == width
    }

    /// The display with another line where the next character goes.
    pub open spec fn with_line(self, line: Seq<Cell>) -> Display {
        Display { lines: self.lines.update(self.y as int, line), ..self }
    }

    /// The display after one step.
    pub open spec fn carried(self, op: Op) -> Display {
        match op {
            Op::Reset => Display { style: plain_style(), ..self },
            Op::Foreground(color) => Display {
                style: Style { fg: Some(color), ..self.style },
                ..self
            },
            Op::Background(color) => Display {
                style: Style { bg: Some(color), ..self.style },
                ..self
            },
            Op::Bold => Display { style: Style { bold: true, ..self.style }, ..self },
            Op::Dim => Display { style: Style { dim: true, ..self.style }, ..self },
            Op::Reverse => Display { style: Style { reverse: true, ..self.style }, ..self },
            Op::MoveTo { x, y } => Display { x: x as nat, y: y as nat, ..self },
            Op::Print(text) => Display {
                x: self.x + text_columns(text),
                ..self.with_line(printed(self.lines[self.y as int], self.x, text, self.style))
            },
            Op::ClearLine => self.with_line(
                cleared(self.lines[self.y as int], 0, self.style.bg),
            ),
            Op::ClearRight => self.with_line(
                cleared(self.lines[self.y as int], self.x, self.style.bg),
            ),
        }
    }

    /// The display after some steps.
    pub open spec fn after(self, steps: Seq<Op>) -> Display
        decreases steps.len(),
    {
        if steps.len() == 0 {
            self
        } else {
            self.after(steps.drop_last()).carried(steps.last())
        }
    }
}

// Steps
// -----

proof fn lemma_after(display: Display, first: Seq<Op>, second: Seq<Op>)
    ensures
        display.after(first + second) == display.after(first).after(second),
    decreases second.len(),
{
    if second.len() == 0 {
        assert(first + second =~= first);
    } else {
        lemma_after(display, first, second.drop_last());
        assert((first + second).drop_last() =~= first + second.drop_last());
        assert((first + second).last() == second.last());
    }
}

proof fn lemma_one(display: Display, op: Op)
    ensures
        display.after(seq![op]) == display.carried(op),
{
    assert(seq![op].drop_last() =~= Seq::<Op>::empty());
    assert(display.after(Seq::<Op>::empty()) == display);
}

/// The steps for a style leave that style behind, whatever was set before, and change
/// nothing else.
pub proof fn style_steps_set_the_style(display: Display, style: Style)
    ensures
        display.after(style_ops(style)) == (Display { style, ..display }),
{
    let reset = seq![Op::Reset];
    let fg = match style.fg {
        Some(color) => seq![Op::Foreground(color)],
        None => Seq::empty(),
    };
    let bg = match style.bg {
        Some(color) => seq![Op::Background(color)],
        None => Seq::empty(),
    };
    let bold = crate::render::step_if(style.bold, Op::Bold);
    let dim = crate::render::step_if(style.dim, Op::Dim);
    let reverse = crate::render::step_if(style.reverse, Op::Reverse);
    lemma_after(display, reset + fg + bg + bold + dim, reverse);
    lemma_after(display, reset + fg + bg + bold, dim);
    lemma_after(display, reset + fg + bg, bold);
    lemma_after(display, reset + fg, bg);
    lemma_after(display, reset, fg);
    lemma_one(display, Op::Reset);
    let d0 = display.after(reset);
    if let Some(color) = style.fg {
        lemma_one(d0, Op::Foreground(color));
    }
    let d1 = d0.after(fg);
    if let Some(color) = style.bg {
        lemma_one(d1, Op::Background(color));
    }
    let d2 = d1.after(bg);
    lemma_one(d2, Op::Bold);
    let d3 = d2.after(bold);
    lemma_one(d3, Op::Dim);
    let d4 = d3.after(dim);
    lemma_one(d4, Op::Reverse);
}

proof fn lemma_place_and_print(display: Display, x: u16, y: u16, text: Seq<char>)
    ensures
        display.after(seq![Op::MoveTo { x, y }, Op::Print(text)]) == (Display {
            x: x as nat + text_columns(text),
            y: y as nat,
            lines: display.lines.update(
                y as int,
                printed(display.lines[y as int], x as nat, text, display.style),
            ),
            ..display
        }),
{
    let steps = seq![Op::MoveTo { x, y }, Op::Print(text)];
    assert(steps =~= seq![Op::MoveTo { x, y }] + seq![Op::Print(text)]);
    lemma_after(display, seq![Op::MoveTo { x, y }], seq![Op::Print(text)]);
    lemma_one(display, Op::MoveTo { x, y });
    lemma_one(display.carried(Op::MoveTo { x, y }), Op::Print(text));
}

proof fn lemma_run(display: Display, run: Run, y: u16)
    requires
        run.x <= 65535,
    ensures
        display.after(run_ops(run, y)).lines == display.lines.update(
            y as int,
            printed(display.lines[y as int], run.x, run.text, run.style),
        ),
{
    let x = display_coordinate(run.x);
    lemma_after(
        display,
        style_ops(run.style),
        seq![Op::MoveTo { x, y }, Op::Print(run.text)],
    );
    style_steps_set_the_style(display, run.style);
    lemma_place_and_print(Display { style: run.style, ..display }, x, y, run.text);
}

/// A line with some runs written on it.
spec fn with_runs(line: Seq<Cell>, runs: Seq<Run>) -> Seq<Cell>
    decreases runs.len(),
{
    if runs.len() == 0 {
        line
    } else {
        let last = runs.last();
        printed(with_runs(line, runs.drop_last()), last.x, last.text, last.style)
    }
}

proof fn lemma_runs(display: Display, runs: Seq<Run>, y: u16)
    requires
        y < display.lines.len(),
        forall|i: int| 0 <= i < runs.len() ==> (#[trigger] runs[i]).x <= 65535,
    ensures
        display.after(runs_ops(runs, y)).lines == display.lines.update(
            y as int,
            with_runs(display.lines[y as int], runs),
        ),
    decreases runs.len(),
{
    if runs.len() == 0 {
        assert(display.lines.update(y as int, display.lines[y as int]) =~= display.lines);
    } else {
        let before = runs.drop_last();
        assert forall|i: int| 0 <= i < before.len() implies (#[trigger] before[i]).x <= 65535 by {
            assert(before[i] == runs[i]);
        }
        lemma_runs(display, before, y);
        lemma_after(display, runs_ops(before, y), run_ops(runs.last(), y));
        assert(runs[runs.len() - 1].x <= 65535);
        lemma_run(display.after(runs_ops(before, y)), runs.last(), y);
        assert(display.lines.update(y as int, with_runs(display.lines[y as int], before)).update(
            y as int,
            with_runs(display.lines[y as int], runs),
        ) =~= display.lines.update(y as int, with_runs(display.lines[y as int], runs)));
    }
}

proof fn lemma_painted(line: Seq<Cell>, x: int, ch: char, style: Style)
    ensures
        painted(line, x, ch, style).len() == line.len(),
        forall|i: int|
            0 <= i < line.len() && (i < x || i >= x + cell_columns(ch)) ==> #[trigger] painted(
                line,
                x,
                ch,
                style,
            )[i] == line[i],
        0 <= x && x + cell_columns(ch) <= line.len() ==> shows_char(
            painted(line, x, ch, style),
            x,
            ch,
            style,
        ),
{
}

proof fn lemma_printed_len(line: Seq<Cell>, x: nat, text: Seq<char>, style: Style)
    ensures
        printed(line, x, text, style).len() == line.len(),
        forall|i: int|
            0 <= i < line.len() && (i < x || i >= x + text_columns(text)) ==> #[trigger] printed(
                line,
                x,
                text,
                style,
            )[i] == line[i],
        text.len() <= text_columns(text),
    decreases text.len(),
{
    if text.len() > 0 {
        let before = text.drop_last();
        let so_far = printed(line, x, before, style);
        lemma_printed_len(line, x, before, style);
        let at = (x + text_columns(before)) as int;
        lemma_painted(so_far, at, text.last(), style);
        assert(printed(line, x, text, style) == painted(so_far, at, text.last(), style));
        assert(text_columns(text) == text_columns(before) + cell_columns(text.last()));
        assert(cell_columns(text.last()) >= 1);
    } else {
        assert(printed(line, x, text, style) == line);
    }
}

// Cells on a line
// ---------------

/// The column at which a cell of a row is shown: the columns of the cells before it, not
/// counting continuations.
pub open spec fn columns_before(cells: Seq<Cell>, k: int) -> nat
    decreases k,
{
    if k <= 0 {
        0
    } else if cells[k - 1].wide_cont {
        columns_before(cells, k - 1)
    } else {
        columns_before(cells, k - 1) + cell_columns(cells[k - 1].ch)
    }
}

/// Whether a line shows a character from column `x` on, over all of its columns.
pub open spec fn shows_char(line: Seq<Cell>, x: int, ch: char, style: Style) -> bool {
    &&& line[x] == (Cell { ch, style, wide_cont: false })
    &&& forall|i: int|
        x < i < x + cell_columns(ch) ==> #[trigger] line[i] == (Cell {
            ch: ' ',
            style,
            wide_cont: true,
        })
}

/// Whether a line shows the cells from column `x` on: each that ends before column `end` at
/// its column.
pub open spec fn shows_cells(line: Seq<Cell>, x: nat, cells: Seq<Cell>, end: nat) -> bool {
    forall|k: int|
        0 <= k < cells.len() && !(#[trigger] cells[k]).wide_cont && x + columns_before(cells, k)
            + cell_columns(cells[k].ch) <= end ==> shows_char(
            line,
            (x + columns_before(cells, k)) as int,
            cells[k].ch,
            cells[k].style,
        )
}

proof fn lemma_columns_before(cells: Seq<Cell>, more: Seq<Cell>, k: int)
    requires
        0 <= k <= cells.len() <= more.len(),
        forall|i: int| 0 <= i < k ==> cells[i] == more[i],
    ensures
        columns_before(cells, k) == columns_before(more, k),
    decreases k,
{
    if k > 0 {
        lemma_columns_before(cells, more, k - 1);
    }
}

proof fn lemma_columns_grow(cells: Seq<Cell>, j: int, k: int)
    requires
        0 <= j < k <= cells.len(),
    ensures
        columns_before(cells, j) <= columns_before(cells, k),
        !cells[j].wide_cont ==> columns_before(cells, j) + cell_columns(cells[j].ch)
            <= columns_before(cells, k),
    decreases k - j,
{
    if j + 1 < k {
        lemma_columns_grow(cells, j + 1, k);
    }
}

/// What is known of a drawing of cells on a line.
spec fn drawn_well(line: Seq<Cell>, x: nat, cells: Seq<Cell>, end: nat) -> bool {
    let d = drawing(x, cells, end);
    let result = with_runs(line, d.runs);
    &&& result.len() == line.len()
    &&& shows_cells(result, x, cells, end)
    &&& forall|i: int|
        0 <= i < line.len() && (i < x || i >= d.x) ==> #[trigger] result[i] == line[i]
    &&& x <= d.x
    &&& d.x <= x + columns_before(cells, cells.len() as int)
    &&& d.full ==> x + columns_before(cells, cells.len() as int) > end
    &&& !d.full ==> d.x == x + columns_before(cells, cells.len() as int)
    &&& d.runs.len() > 0 ==> d.runs.last().x + text_columns(d.runs.last().text) == d.x
    &&& d.runs.len() > 0 ==> d.x <= end
    &&& forall|i: int| 0 <= i < d.runs.len() ==> (#[trigger] d.runs[i]).x < end
    &&& forall|i: int| x <= i < d.x ==> #[trigger] is_covered(x, cells, end, i)
}

/// Whether a cell that ends before column `end` is shown in a column, if the cells are shown
/// from column `x` on.
pub open spec fn is_covered(x: nat, cells: Seq<Cell>, end: nat, i: int) -> bool {
    exists|k: int| #[trigger] covers(x, cells, end, k, i)
}

/// Whether the cell `k` ends before column `end` and is shown in a column.
pub open spec fn covers(x: nat, cells: Seq<Cell>, end: nat, k: int, i: int) -> bool {
    &&& 0 <= k < cells.len()
    &&& !cells[k].wide_cont
    &&& x + columns_before(cells, k) + cell_columns(cells[k].ch) <= end
    &&& x + columns_before(cells, k) <= i < x + columns_before(cells, k) + cell_columns(
        cells[k].ch,
    )
}

proof fn lemma_still_covered(x: nat, before: Seq<Cell>, cells: Seq<Cell>, end: nat, i: int)
    requires
        before.len() <= cells.len(),
        forall|k: int| 0 <= k < before.len() ==> before[k] == cells[k],
        is_covered(x, before, end, i),
    ensures
        is_covered(x, cells, end, i),
{
    let k = choose|k: int| #[trigger] covers(x, before, end, k, i);
    lemma_columns_before(before, cells, k);
    assert(covers(x, cells, end, k, i));
}

proof fn lemma_one_more_char(line: Seq<Cell>, d: Drawing, cell: Cell, end: nat)
    requires
        !d.full,
        !cell.wide_cont,
        d.x + cell_columns(cell.ch) <= end,
        d.runs.len() > 0 ==> d.runs.last().x + text_columns(d.runs.last().text) == d.x,
    ensures
        ({
            let next = draw_cell(d, cell, end);
            &&& with_runs(line, next.runs) == painted(
                with_runs(line, d.runs),
                d.x as int,
                cell.ch,
                cell.style,
            )
            &&& next.runs.len() > 0
            &&& next.runs.last().x + text_columns(next.runs.last().text) == next.x
            &&& next.x == d.x + cell_columns(cell.ch)
            &&& !next.full
        }),
{
    let next = draw_cell(d, cell, end);
    let last = next.runs.last();
    if d.runs.len() > 0 && d.runs.last().style == cell.style {
        assert(next.runs.drop_last() =~= d.runs.drop_last());
        assert(last.text.drop_last() =~= d.runs.last().text);
    } else {
        assert(next.runs.drop_last() =~= d.runs);
        assert(last.text.drop_last() =~= Seq::<char>::empty());
        assert(text_columns(Seq::<char>::empty()) == 0);
        assert(printed(
            with_runs(line, d.runs),
            d.x,
            Seq::<char>::empty(),
            cell.style,
        ) == with_runs(line, d.runs));
    }
}

proof fn lemma_still_shown(
    old: Seq<Cell>,
    result: Seq<Cell>,
    x: nat,
    cells: Seq<Cell>,
    end: nat,
    drawn: nat,
)
    requires
        cells.len() > 0,
        shows_cells(old, x, cells.drop_last(), end),
        ({
            let n = cells.len() - 1;
            let cell = cells[n];
            let at = x + columns_before(cells, n);
            if drawn == at && !cell.wide_cont && at + cell_columns(cell.ch) <= end {
                result == painted(old, drawn as int, cell.ch, cell.style) && end <= old.len()
            } else {
                &&& result == old
                &&& cell.wide_cont || at + cell_columns(cell.ch) > end
            }
        }),
    ensures
        shows_cells(result, x, cells, end),
{
    let n = cells.len() - 1;
    let before = cells.drop_last();
    assert forall|k: int|
        0 <= k < cells.len() && !(#[trigger] cells[k]).wide_cont && x + columns_before(cells, k)
            + cell_columns(cells[k].ch) <= end implies shows_char(
        result,
        (x + columns_before(cells, k)) as int,
        cells[k].ch,
        cells[k].style,
    ) by {
        if k < n {
            lemma_columns_before(before, cells, k);
            lemma_columns_grow(cells, k, n);
            assert(before[k] == cells[k]);
            assert(shows_char(
                old,
                (x + columns_before(cells, k)) as int,
                cells[k].ch,
                cells[k].style,
            ));
        }
    }
}

proof fn lemma_drawn_well(line: Seq<Cell>, x: nat, cells: Seq<Cell>, end: nat)
    requires
        end <= line.len(),
    ensures
        drawn_well(line, x, cells, end),
    decreases cells.len(),
{
    if cells.len() > 0 {
        let before = cells.drop_last();
        let cell = cells.last();
        let n = before.len() as int;
        lemma_drawn_well(line, x, before, end);
        lemma_columns_before(before, cells, n);
        let d = drawing(x, before, end);
        let next = drawing(x, cells, end);
        assert(next == draw_cell(d, cell, end));
        let old = with_runs(line, d.runs);
        let result = with_runs(line, next.runs);
        assert(columns_before(cells, n + 1) == columns_before(cells, n) + (if cell.wide_cont {
            0
        } else {
            cell_columns(cell.ch)
        }));
        if !d.full && !cell.wide_cont && d.x + cell_columns(cell.ch) <= end {
            lemma_one_more_char(line, d, cell, end);
            assert forall|i: int| 0 <= i < next.runs.len() implies (#[trigger] next.runs[i]).x
                < end by {
                if i < d.runs.len() {
                    assert(d.runs[i].x < end);
                }
            }
            lemma_still_shown(old, result, x, cells, end, d.x);
            assert forall|i: int| x <= i < next.x implies #[trigger] is_covered(
                x,
                cells,
                end,
                i,
            ) by {
                if i < d.x {
                    assert(is_covered(x, before, end, i));
                    lemma_still_covered(x, before, cells, end, i);
                } else {
                    assert(covers(x, cells, end, n, i));
                }
            }
        } else {
            assert(next.runs == d.runs);
            lemma_still_shown(old, result, x, cells, end, d.x);
            assert forall|i: int| x <= i < next.x implies #[trigger] is_covered(
                x,
                cells,
                end,
                i,
            ) by {
                assert(is_covered(x, before, end, i));
                lemma_still_covered(x, before, cells, end, i);
            }
        }
    }
}

/// Drawing cells on a line shows each cell at its column, as far as the cells end before
/// column `end`, and changes nothing before the first of them, nor from `end` on, nor on
/// other lines.
pub proof fn drawn_cells_are_shown(display: Display, y: u16, x: nat, cells: Seq<Cell>, end: nat)
    requires
        y < display.lines.len(),
        end <= display.lines[y as int].len() <= 65535,
    ensures
        ({
            let old = display.lines[y as int];
            let after = display.after(cells_ops(y, x, cells, end));
            let line = after.lines[y as int];
            &&& after.lines.len() == display.lines.len()
            &&& line.len() == old.len()
            &&& shows_cells(line, x, cells, end)
            &&& forall|i: int|
                0 <= i < old.len() && (i < x || i >= end || i >= x + columns_before(
                    cells,
                    cells.len() as int,
                )) ==> #[trigger] line[i] == old[i]
            &&& forall|i: int|
                0 <= i < old.len() && !is_covered(x, cells, end, i) ==> #[trigger] line[i]
                    == old[i]
            &&& forall|k: int|
                0 <= k < display.lines.len() && k != y ==> #[trigger] after.lines[k]
                    == display.lines[k]
        }),
{
    let d = drawing(x, cells, end);
    lemma_drawn_well(display.lines[y as int], x, cells, end);
    assert forall|i: int| 0 <= i < d.runs.len() implies (#[trigger] d.runs[i]).x <= 65535 by {
        assert(d.runs[i].x < end);
    }
    lemma_runs(display, d.runs, y);
    if d.runs.len() == 0 {
        assert(with_runs(display.lines[y as int], d.runs) == display.lines[y as int]);
    }
}

// Rows of a frame
// ---------------

/// Whether the cells of a row from column `from` up to `to` are characters side by side, each
/// with the cells that it covers behind it.
pub open spec fn whole_between(row: Seq<Cell>, from: int, to: int) -> bool
    decreases to - from,
{
    if from >= to {
        from == to
    } else {
        let cell = row[from];
        let next = from + cell_columns(cell.ch);
        &&& !cell.wide_cont
        &&& next <= to
        &&& forall|i: int|
            from < i < next ==> #[trigger] row[i] == (Cell {
                ch: ' ',
                style: cell.style,
                wide_cont: true,
            })
        &&& whole_between(row, next, to)
    }
}

proof fn lemma_whole_shift(row: Seq<Cell>, a: int, b: int, from: int)
    requires
        0 <= a <= from <= b <= row.len(),
        whole_between(row, from, b),
    ensures
        whole_between(row.subrange(a, b), from - a, b - a),
    decreases b - from,
{
    if from < b {
        let sub = row.subrange(a, b);
        let next = from + cell_columns(row[from].ch);
        assert(sub[from - a] == row[from]);
        assert forall|i: int| from - a < i < next - a implies #[trigger] sub[i] == (Cell {
            ch: ' ',
            style: row[from].style,
            wide_cont: true,
        }) by {
            assert(sub[i] == row[i + a]);
        }
        lemma_whole_shift(row, a, b, next);
    }
}

proof fn lemma_skip_covered(cells: Seq<Cell>, from: int, to: int)
    requires
        0 <= from <= to <= cells.len(),
        forall|i: int| from <= i < to ==> (#[trigger] cells[i]).wide_cont,
    ensures
        columns_before(cells, to) == columns_before(cells, from),
    decreases to - from,
{
    if from < to {
        lemma_skip_covered(cells, from, to - 1);
        assert(cells[to - 1].wide_cont);
    }
}

proof fn lemma_whole_is_shown(line: Seq<Cell>, x: nat, cells: Seq<Cell>, from: int)
    requires
        0 <= from <= cells.len(),
        whole_between(cells, from, cells.len() as int),
        columns_before(cells, from) == from,
        shows_cells(line, x, cells, x + cells.len()),
    ensures
        forall|i: int| from <= i < cells.len() ==> line[x + i] == #[trigger] cells[i],
        columns_before(cells, cells.len() as int) == cells.len(),
    decreases cells.len() - from,
{
    if from < cells.len() {
        let cell = cells[from];
        let next = from + cell_columns(cell.ch);
        assert forall|i: int| from + 1 <= i < next implies (#[trigger] cells[i]).wide_cont by {}
        lemma_skip_covered(cells, from + 1, next);
        lemma_whole_is_shown(line, x, cells, next);
        assert(shows_char(line, x + from, cell.ch, cell.style));
        assert forall|i: int| from <= i < cells.len() implies line[x + i] == #[trigger] cells[i] by {
            if from < i < next {
                assert(line[x + i] == (Cell { ch: ' ', style: cell.style, wide_cont: true }));
            }
        }
    }
}

proof fn lemma_clear(display: Display, y: u16, x: nat, width: nat)
    requires
        x <= 65535,
        y < display.lines.len(),
        cell_columns(' ') == 1,
    ensures
        ({
            let after = display.after(clear_ops(y, x, width));
            let old = display.lines[y as int];
            let line = after.lines[y as int];
            &&& after.lines.len() == display.lines.len()
            &&& line.len() == old.len()
            &&& forall|i: int|
                0 <= i < old.len() && (i < x || i >= x + width) ==> #[trigger] line[i] == old[i]
            &&& forall|k: int|
                0 <= k < display.lines.len() && k != y ==> #[trigger] after.lines[k]
                    == display.lines[k]
        }),
{
    if width > 0 {
        let text = repeated(' ', width);
        let place = Op::MoveTo { x: display_coordinate(x), y };
        let steps = seq![place, Op::Reset, Op::Print(text)];
        assert(steps =~= seq![place] + seq![Op::Reset] + seq![Op::Print(text)]);
        lemma_after(display, seq![place] + seq![Op::Reset], seq![Op::Print(text)]);
        lemma_after(display, seq![place], seq![Op::Reset]);
        lemma_one(display, place);
        let d1 = display.carried(place);
        lemma_one(d1, Op::Reset);
        let d2 = d1.carried(Op::Reset);
        lemma_one(d2, Op::Print(text));
        lemma_blank_columns(width);
        lemma_printed_len(display.lines[y as int], x, text, plain_style());
    }
}

proof fn lemma_blank_columns(width: nat)
    requires
        cell_columns(' ') == 1,
    ensures
        text_columns(repeated(' ', width)) == width,
    decreases width,
{
    if width > 0 {
        let less = (width - 1) as nat;
        lemma_blank_columns(less);
        assert(repeated(' ', width).drop_last() =~= repeated(' ', less));
    }
}

/// Whether a line shows some cells from column `x` on, cell by cell.
spec fn holds(line: Seq<Cell>, x: nat, cells: Seq<Cell>) -> bool {
    forall|i: int| 0 <= i < cells.len() ==> line[x + i] == #[trigger] cells[i]
}

proof fn lemma_segment(
    display: Display,
    y: u16,
    x: nat,
    previous: Option<Seq<Cell>>,
    cells: Seq<Cell>,
)
    requires
        y < display.lines.len(),
        x + cells.len() <= display.lines[y as int].len() <= 65535,
        whole_between(cells, 0, cells.len() as int),
        previous matches Some(before) ==> holds(display.lines[y as int], x, before),
        cell_columns(' ') == 1,
    ensures
        ({
            let after = display.after(segment_ops(y, x, previous, cells));
            let old = display.lines[y as int];
            let line = after.lines[y as int];
            &&& after.lines.len() == display.lines.len()
            &&& line.len() == old.len()
            &&& holds(line, x, cells)
            &&& forall|i: int|
                0 <= i < old.len() && (i < x || i >= x + cells.len()) ==> #[trigger] line[i]
                    == old[i]
            &&& forall|k: int|
                0 <= k < display.lines.len() && k != y ==> #[trigger] after.lines[k]
                    == display.lines[k]
        }),
{
    if previous != Some(cells) {
        let end = x + cells.len();
        let clear = clear_ops(y, x, cells.len());
        let cleared = display.after(clear);
        lemma_after(display, clear, cells_ops(y, x, cells, end));
        lemma_clear(display, y, x, cells.len());
        drawn_cells_are_shown(cleared, y, x, cells, end);
        lemma_whole_is_shown(
            cleared.after(cells_ops(y, x, cells, end)).lines[y as int],
            x,
            cells,
            0,
        );
    }
}

/// Whether each part of a row of a frame is whole: the left pane, the separator, the right
/// pane.
pub open spec fn parts_are_whole(frame: Frame, y: int) -> bool {
    let row = frame.rows[y];
    let at = frame.separator as int;
    &&& whole_between(row, 0, at)
    &&& whole_between(row, at, at + 1)
    &&& whole_between(row, at + 1, frame.width as int)
}

proof fn lemma_frame_row(
    display: Display,
    frame: Frame,
    previous: Option<Seq<Cell>>,
    y: int,
)
    requires
        frame.wf(),
        display.has_size(frame.width, frame.height),
        0 <= y < frame.height,
        parts_are_whole(frame, y),
        previous matches Some(before) ==> display.lines[y] == before,
        cell_columns(' ') == 1,
    ensures
        ({
            let after = display.after(frame_row_ops(frame, previous, y));
            &&& after.has_size(frame.width, frame.height)
            &&& after.lines[y] == frame.rows[y]
            &&& forall|k: int|
                0 <= k < frame.height && k != y ==> #[trigger] after.lines[k] == display.lines[k]
        }),
{
    let row = frame.rows[y];
    let line = display_coordinate(y as nat);
    let at = frame.separator;
    let width = frame.width;
    let a = row.subrange(0, at as int);
    let b = row.subrange(at as int, at as int + 1);
    let c = row.subrange(at as int + 1, width as int);
    let first = segment_ops(line, 0, part(previous, 0, at), a);
    let second = segment_ops(line, at, part(previous, at, at + 1), b);
    let third = segment_ops(line, at + 1, part(previous, at + 1, width), c);
    lemma_after(display, first + second, third);
    lemma_after(display, first, second);
    assert(row.len() == width);
    lemma_whole_shift(row, 0, at as int, 0);
    lemma_whole_shift(row, at as int, at as int + 1, at as int);
    lemma_whole_shift(row, at as int + 1, width as int, at as int + 1);
    let d1 = display.after(first);
    let d2 = d1.after(second);
    let d3 = d2.after(third);
    assert(display.lines[y].len() == width);
    lemma_segment(display, line, 0, part(previous, 0, at), a);
    if let Some(before) = previous {
        assert forall|i: int| 0 <= i < 1 implies d1.lines[y][at + i] == #[trigger] before.subrange(
            at as int,
            at as int + 1,
        )[i] by {
            assert(d1.lines[y][at + i] == display.lines[y][at + i]);
        }
    }
    lemma_segment(d1, line, at, part(previous, at, at + 1), b);
    if let Some(before) = previous {
        let rest = before.subrange(at as int + 1, width as int);
        assert forall|i: int| 0 <= i < rest.len() implies d2.lines[y][at + 1 + i]
            == #[trigger] rest[i] by {
            assert(d2.lines[y][at + 1 + i] == d1.lines[y][at + 1 + i]);
            assert(d1.lines[y][at + 1 + i] == display.lines[y][at + 1 + i]);
        }
    }
    lemma_segment(d2, line, at + 1, part(previous, at + 1, width), c);
    assert forall|i: int| 0 <= i < width implies d3.lines[y][i] == row[i] by {
        if i < at {
            assert(d1.lines[y][i] == a[i]);
            assert(d2.lines[y][i] == d1.lines[y][i]);
            assert(d3.lines[y][i] == d2.lines[y][i]);
        } else if i == at {
            assert(d2.lines[y][i] == b[0]);
            assert(d3.lines[y][i] == d2.lines[y][i]);
        } else {
            assert(d3.lines[y][i] == c[i - at - 1]);
        }
    }
    assert(d3.lines[y] =~= row);
    assert forall|k: int| 0 <= k < frame.height && k != y implies #[trigger] d3.lines[k]
        == display.lines[k] by {
        assert(d1.lines[k] == display.lines[k]);
        assert(d2.lines[k] == d1.lines[k]);
    }
    assert forall|k: int| 0 <= k < frame.height implies (#[trigger] d3.lines[k]).len() == width by {
        if k != y {
            assert(display.lines[k].len() == width);
        }
    }
}

proof fn lemma_frame(display: Display, frame: Frame, previous: Option<Frame>, count: nat)
    requires
        frame.wf(),
        display.has_size(frame.width, frame.height),
        count <= frame.height,
        forall|y: int| 0 <= y < frame.height ==> #[trigger] parts_are_whole(frame, y),
        forall|y: int|
            0 <= y < frame.height && drawn_row(frame, previous, y) is Some
                ==> #[trigger] display.lines[y] == drawn_row(frame, previous, y)->0,
        cell_columns(' ') == 1,
    ensures
        ({
            let after = display.after(frame_ops(frame, previous, count));
            &&& after.has_size(frame.width, frame.height)
            &&& forall|y: int|
                0 <= y < frame.height ==> #[trigger] after.lines[y] == (if y < count {
                    frame.rows[y]
                } else {
                    display.lines[y]
                })
        }),
    decreases count,
{
    if count > 0 {
        let y = count - 1;
        let before = display.after(frame_ops(frame, previous, y as nat));
        lemma_frame(display, frame, previous, y as nat);
        let row = drawn_row(frame, previous, y);
        lemma_after(
            display,
            frame_ops(frame, previous, y as nat),
            frame_row_ops(frame, row, y),
        );
        assert(before.lines[y] == display.lines[y]);
        assert(parts_are_whole(frame, y));
        lemma_frame_row(before, frame, row, y);
        let after = display.after(frame_ops(frame, previous, count));
        assert(after == before.after(frame_row_ops(frame, row, y)));
        assert forall|k: int| 0 <= k < frame.height implies #[trigger] after.lines[k] == (if k
            < count {
            frame.rows[k]
        } else {
            display.lines[k]
        }) by {
            if k != y {
                assert(after.lines[k] == before.lines[k]);
            }
        }
    }
}

/// Carrying out the steps of a drawing leaves the frame on the display: each cell with its
/// character and its style. This holds on a display that shows the frame before, and on any
/// display if there is no frame before or it had another shape.
pub proof fn drawing_leaves_the_frame(display: Display, frame: Frame, previous: Option<Frame>)
    requires
        frame.wf(),
        display.has_size(frame.width, frame.height),
        forall|y: int| 0 <= y < frame.height ==> #[trigger] parts_are_whole(frame, y),
        previous matches Some(before) ==> before.wf() && (before.width != frame.width
            || before.height != frame.height || before.separator != frame.separator
            || display.lines == before.rows),
    ensures
        display.after(frame_ops(frame, previous, frame.height)).lines == frame.rows,
{
    assert(cell_columns(' ') == 1);
    lemma_frame(display, frame, previous, frame.height);
    let after = display.after(frame_ops(frame, previous, frame.height));
    assert(after.lines =~= frame.rows);
}

// What the split view shows
// -------------------------

/// Whether each cell from column `from` up to `to` is a character of one column.
spec fn singles(row: Seq<Cell>, from: int, to: int) -> bool {
    forall|i: int|
        from <= i < to ==> !(#[trigger] row[i]).wide_cont && cell_columns(row[i].ch) == 1
}

proof fn lemma_singles_are_whole(row: Seq<Cell>, from: int, to: int)
    requires
        from <= to,
        singles(row, from, to),
    ensures
        whole_between(row, from, to),
    decreases to - from,
{
    if from < to {
        assert(!row[from].wide_cont && cell_columns(row[from].ch) == 1);
        lemma_singles_are_whole(row, from + 1, to);
    }
}

proof fn lemma_same_whole(a: Seq<Cell>, b: Seq<Cell>, from: int, to: int)
    requires
        whole_between(a, from, to),
        forall|i: int| from <= i < to ==> a[i] == #[trigger] b[i],
    ensures
        whole_between(b, from, to),
    decreases to - from,
{
    if from < to {
        assert(a[from] == b[from]);
        let next = from + cell_columns(a[from].ch);
        lemma_same_whole(a, b, next, to);
        assert forall|i: int| from < i < next implies #[trigger] b[i] == (Cell {
            ch: ' ',
            style: b[from].style,
            wide_cont: true,
        }) by {
            assert(a[i] == b[i]);
        }
    }
}

proof fn lemma_overlaid(dest: Seq<Cell>, x: int, end: int, cells: Seq<Cell>, k: int)
    requires
        0 <= x <= end <= dest.len(),
        0 <= k <= cells.len(),
        singles(dest, x, end),
    ensures
        ({
            let result = overlaid(dest, x, end, cells, k);
            &&& result.len() == dest.len()
            &&& whole_between(result, x, end)
            &&& forall|j: int|
                k <= j < cells.len() && !(#[trigger] cells[j]).wide_cont && x + columns_before(
                    cells,
                    j,
                ) - columns_before(cells, k) + cell_columns(cells[j].ch) <= end ==> shows_char(
                    result,
                    x + columns_before(cells, j) - columns_before(cells, k),
                    cells[j].ch,
                    cells[j].style,
                )
            &&& forall|i: int|
                0 <= i < dest.len() && (i < x || i >= end || i >= x + columns_before(
                    cells,
                    cells.len() as int,
                ) - columns_before(cells, k)) ==> #[trigger] result[i] == dest[i]
        }),
    decreases cells.len() - k,
{
    let result = overlaid(dest, x, end, cells, k);
    overlay_stays_inside(dest, x, end, cells, k);
    if k >= cells.len() {
        lemma_singles_are_whole(dest, x, end);
    } else if cells[k].wide_cont {
        lemma_overlaid(dest, x, end, cells, k + 1);
    } else if x + cell_columns(cells[k].ch) > end {
        lemma_singles_are_whole(dest, x, end);
        lemma_columns_grow(cells, k, cells.len() as int);
        assert forall|j: int| k <= j < cells.len() implies columns_before(cells, j)
            + cell_columns((#[trigger] cells[j]).ch) >= columns_before(cells, k) + cell_columns(
            cells[k].ch,
        ) by {
            if j > k {
                lemma_columns_grow(cells, k, j);
            }
        }
    } else {
        let cell = cells[k];
        let next = x + cell_columns(cell.ch);
        let with = put_cell(dest, x, cell);
        assert(with.len() == dest.len());
        assert forall|i: int| next <= i < end implies !(#[trigger] with[i]).wide_cont
            && cell_columns(with[i].ch) == 1 by {
            assert(with[i] == dest[i]);
        }
        overlay_stays_inside(with, next, end, cells, k + 1);
        lemma_overlaid(with, next, end, cells, k + 1);
        lemma_columns_grow(cells, k, cells.len() as int);
        assert(columns_before(cells, k + 1) == columns_before(cells, k) + cell_columns(cell.ch));
        assert(result[x] == with[x]);
        assert(with[x] == cell);
        assert forall|i: int| x < i < next implies #[trigger] result[i] == (Cell {
            ch: ' ',
            style: cell.style,
            wide_cont: true,
        }) by {
            assert(result[i] == with[i]);
        }
        assert forall|i: int|
            0 <= i < dest.len() && (i < x || i >= end || i >= x + columns_before(
                cells,
                cells.len() as int,
            ) - columns_before(cells, k)) implies #[trigger] result[i] == dest[i] by {
            if i < x {
                assert(result[i] == with[i]);
            } else {
                assert(result[i] == with[i]);
                assert(i >= next);
            }
        }
        assert forall|j: int|
            k <= j < cells.len() && !(#[trigger] cells[j]).wide_cont && x + columns_before(cells, j)
                - columns_before(cells, k) + cell_columns(cells[j].ch) <= end implies shows_char(
            result,
            x + columns_before(cells, j) - columns_before(cells, k),
            cells[j].ch,
            cells[j].style,
        ) by {
            if j == k {
                assert(shows_char(result, x, cell.ch, cell.style));
            }
        }
    }
}

proof fn lemma_laid_over(row: Seq<Cell>, x: nat, cells: Seq<Cell>, width: nat)
    requires
        x + width <= row.len(),
        singles(row, x as int, (x + width) as int),
    ensures
        ({
            let result = laid_over(row, x, cells, width);
            &&& result.len() == row.len()
            &&& whole_between(result, x as int, (x + width) as int)
            &&& shows_cells(result, x, cells, x + width)
            &&& forall|i: int|
                0 <= i < row.len() && (i < x || i >= x + width || i >= x + columns_before(
                    cells,
                    cells.len() as int,
                )) ==> #[trigger] result[i] == row[i]
        }),
{
    lemma_overlaid(row, x as int, (x + width) as int, cells, 0);
}

proof fn lemma_still_shows(a: Seq<Cell>, b: Seq<Cell>, x: nat, cells: Seq<Cell>, end: nat)
    requires
        shows_cells(a, x, cells, end),
        end <= a.len(),
        forall|i: int| x <= i < end ==> #[trigger] a[i] == b[i],
    ensures
        shows_cells(b, x, cells, end),
{
    assert forall|k: int|
        0 <= k < cells.len() && !(#[trigger] cells[k]).wide_cont && x + columns_before(cells, k)
            + cell_columns(cells[k].ch) <= end implies shows_char(
        b,
        (x + columns_before(cells, k)) as int,
        cells[k].ch,
        cells[k].style,
    ) by {
        let at = (x + columns_before(cells, k)) as int;
        assert(shows_char(a, at, cells[k].ch, cells[k].style));
        assert(a[at] == b[at]);
        assert forall|i: int| at < i < at + cell_columns(cells[k].ch) implies #[trigger] b[i] == (
        Cell { ch: ' ', style: cells[k].style, wide_cont: true }) by {
            assert(a[i] == b[i]);
        }
    }
}

/// Each line of the picture shows the log on the left, or the status in the last line, then
/// the separator, then the program's line on the right, each from the first column of its
/// place on; all parts are whole.
pub proof fn the_picture_shows_both_panes(view: Split, dims: SplitDims, y: int)
    requires
        dims.wf(),
        dims.rows >= 2,
        0 <= y < dims.rows,
    ensures
        ({
            let picture = view.picture(dims);
            let row = picture.rows[y];
            let left = dims.left_cols as nat;
            let width = (left + 1 + dims.right_cols) as nat;
            &&& picture.width == width
            &&& picture.height == dims.rows
            &&& picture.separator == left
            &&& picture.rows.len() == dims.rows
            &&& row.len() == width
            &&& parts_are_whole(picture, y)
            &&& shows_cells(
                row,
                0,
                if y + 1 < dims.rows {
                    view.left_line(y)
                } else {
                    view.left_status(dims)
                },
                left,
            )
            &&& row[left as int] == view.separator_cell(y)
            &&& y < view.right.screen.lines.len() ==> shows_cells(
                row,
                left + 1,
                view.highlighted_row(Focus::Right, y, view.right.screen.lines[y]),
                width,
            )
        }),
{
    let left = dims.left_cols as nat;
    let width = dims.width();
    let blank = blank_row(width, plain_style());
    assert(cell_columns(' ') == 1);
    let cells = if y + 1 < dims.rows {
        view.left_line(y)
    } else {
        view.left_status(dims)
    };
    let with_left = laid_over(blank, 0, cells, left);
    lemma_laid_over(blank, 0, cells, left);
    let separator = view.separator_cell(y);
    let with_separator = with_left.update(left as int, separator);
    assert(cell_columns(separator.ch) == 1);
    let row = view.line(dims, y);
    lemma_same_whole(with_left, with_separator, 0, left as int);
    lemma_still_shows(with_left, with_separator, 0, cells, left);
    assert forall|i: int| left + 1 <= i < width implies !(#[trigger] with_separator[i]).wide_cont
        && cell_columns(with_separator[i].ch) == 1 by {
        assert(with_left[i] == blank[i]);
    }
    if y < view.right.screen.lines.len() {
        let right = view.highlighted_row(Focus::Right, y, view.right.screen.lines[y]);
        lemma_laid_over(with_separator, left + 1, right, dims.right_cols as nat);
        assert(row == laid_over(with_separator, left + 1, right, dims.right_cols as nat));
        lemma_same_whole(with_separator, row, 0, left as int);
        lemma_still_shows(with_separator, row, 0, cells, left);
        assert(row[left as int] == with_separator[left as int]);
    } else {
        assert(row == with_separator);
        lemma_singles_are_whole(row, left as int + 1, width as int);
    }
    lemma_singles_are_whole(row, left as int, left as int + 1);
    assert(view.picture(dims).rows[y] == row);
}

/// Drawing the split view leaves its picture on the display, whatever was drawn before.
pub proof fn the_split_view_is_drawn(view: Split, dims: SplitDims, display: Display)
    requires
        view.wf(),
        dims.wf(),
        dims.rows >= 2,
        display.has_size(dims.width(), dims.rows as nat),
        view.frame matches Some(before) ==> before.width != dims.width() || before.height
            != dims.rows || before.separator != dims.left_cols || display.lines == before.rows,
    ensures
        display.after(view.drawing(dims)).lines == view.drawn(dims).frame->0.rows,
        view.drawn(dims).frame == Some(view.settled(dims).picture(dims)),
{
    let s = view.settled(dims);
    let frame = s.picture(dims);
    assert forall|y: int| 0 <= y < frame.height implies #[trigger] parts_are_whole(frame, y) by {
        the_picture_shows_both_panes(s, dims, y);
    }
    assert forall|y: int| 0 <= y < frame.rows.len() implies (#[trigger] frame.rows[y]).len()
        == frame.width by {
        the_picture_shows_both_panes(s, dims, y);
    }
    drawing_leaves_the_frame(display, frame, view.frame);
}

/// The program's screen appears on the display as it is, behind the separator: each cell of
/// a line in its own column, with its character, and with its style where nothing is
/// selected on the right.
pub proof fn the_program_is_on_the_display(
    view: Split,
    dims: SplitDims,
    display: Display,
    y: int,
    x: int,
)
    requires
        view.wf(),
        dims.wf(),
        dims.rows >= 2,
        display.has_size(dims.width(), dims.rows as nat),
        view.frame is None,
        0 <= y < dims.rows,
        y < view.right.screen.rows,
        view.right.screen.cols <= dims.right_cols,
        0 <= x < view.right.screen.cols,
        whole_between(view.right.screen.lines[y], 0, view.right.screen.cols as int),
    ensures
        ({
            let shown = display.after(view.drawing(dims)).lines[y][dims.left_cols + 1 + x];
            let cell = view.right.screen.lines[y][x];
            &&& shown.ch == cell.ch
            &&& shown.wide_cont == cell.wide_cont
            &&& view.selection is None || view.selection->0.pane == Focus::Left ==> shown == cell
        }),
{
    let s = view.settled(dims);
    the_split_view_is_drawn(view, dims, display);
    the_picture_shows_both_panes(s, dims, y);
    let row = s.picture(dims).rows[y];
    let line = view.right.screen.lines[y];
    assert(s.right == view.right);
    assert(s.selection == view.selection);
    let shown = s.highlighted_row(Focus::Right, y, line);
    let at = (dims.left_cols + 1) as nat;
    if let Some(active) = view.selection {
        crate::selection::highlighting_keeps_text(line, y, active.selection);
    }
    assert(shown.len() == line.len());
    assert forall|k: int|
        0 <= k < line.len() && !(#[trigger] line[k]).wide_cont && at + columns_before(line, k)
            + cell_columns(line[k].ch) <= at + line.len() implies {
        let place = (at + columns_before(line, k)) as int;
        &&& row[place].ch == line[k].ch
        &&& !row[place].wide_cont
        &&& forall|i: int|
            place < i < place + cell_columns(line[k].ch) ==> (#[trigger] row[i]).wide_cont
                && row[i].ch == ' '
    } by {
        lemma_same_columns(line, shown, k);
        assert(shown[k].ch == line[k].ch && shown[k].wide_cont == line[k].wide_cont);
        assert(shows_char(
            row,
            (at + columns_before(line, k)) as int,
            shown[k].ch,
            shown[k].style,
        ));
    }
    lemma_whole_text(row, at, line, 0);
    if view.selection is None || view.selection->0.pane == Focus::Left {
        assert(shown == line);
        assert forall|k: int|
            0 <= k < line.len() && !(#[trigger] line[k]).wide_cont && at + columns_before(line, k)
                + cell_columns(line[k].ch) <= at + line.len() implies shows_char(
            row,
            (at + columns_before(line, k)) as int,
            line[k].ch,
            line[k].style,
        ) by {}
        lemma_whole_is_shown(row, at, line, 0);
        assert(row[at + x] == line[x]);
    }
}

proof fn lemma_same_columns(a: Seq<Cell>, b: Seq<Cell>, k: int)
    requires
        0 <= k <= a.len() == b.len(),
        forall|i: int|
            0 <= i < a.len() ==> (#[trigger] b[i]).ch == a[i].ch && b[i].wide_cont
                == a[i].wide_cont,
    ensures
        columns_before(a, k) == columns_before(b, k),
    decreases k,
{
    if k > 0 {
        lemma_same_columns(a, b, k - 1);
        assert(b[k - 1].ch == a[k - 1].ch);
    }
}

proof fn lemma_whole_text(row: Seq<Cell>, at: nat, line: Seq<Cell>, from: int)
    requires
        0 <= from <= line.len(),
        whole_between(line, from, line.len() as int),
        columns_before(line, from) == from,
        forall|k: int|
            0 <= k < line.len() && !(#[trigger] line[k]).wide_cont && at + columns_before(line, k)
                + cell_columns(line[k].ch) <= at + line.len() ==> {
                let place = (at + columns_before(line, k)) as int;
                &&& row[place].ch == line[k].ch
                &&& !row[place].wide_cont
                &&& forall|i: int|
                    place < i < place + cell_columns(line[k].ch) ==> (#[trigger] row[i]).wide_cont
                        && row[i].ch == ' '
            },
    ensures
        forall|i: int|
            from <= i < line.len() ==> row[at + i].ch == (#[trigger] line[i]).ch && row[at
                + i].wide_cont == line[i].wide_cont,
    decreases line.len() - from,
{
    if from < line.len() {
        let cell = line[from];
        let next = from + cell_columns(cell.ch);
        assert forall|i: int| from + 1 <= i < next implies (#[trigger] line[i]).wide_cont by {}
        lemma_skip_covered(line, from + 1, next);
        lemma_whole_text(row, at, line, next);
        assert(row[at + from].ch == cell.ch);
        assert forall|i: int| from <= i < line.len() implies row[at + i].ch == (
        #[trigger] line[i]).ch && row[at + i].wide_cont == line[i].wide_cont by {
            if from < i < next {
                assert(row[at + i].wide_cont);
            }
        }
    }
}

// What the standalone viewer shows
// --------------------------------

/// Whether a line shows the cells of a row from the first column on, as far as they end
/// before column `end`, and nothing else.
#[verifier::opaque]
pub open spec fn shows_row(line: Seq<Cell>, cells: Seq<Cell>, end: nat) -> bool {
    &&& shows_cells(line, 0, cells, end)
    &&& forall|i: int|
        0 <= i < line.len() && !is_covered(0, cells, end, i) ==> (#[trigger] line[i]).ch == ' '
            && !line[i].wide_cont
}

/// Whether a line shows a status, in reverse.
pub open spec fn shows_status(line: Seq<Cell>, status: Seq<char>) -> bool {
    (forall|i: int| 0 <= i < status.len() ==> cell_columns(#[trigger] status[i]) == 1)
        ==> forall|i: int|
        0 <= i < status.len() && i < line.len() ==> #[trigger] line[i] == (Cell {
            ch: status[i],
            style: Style { reverse: true, ..plain_style() },
            wide_cont: false,
        })
}

/// Whether a display shows a page: its rows, and the status below.
pub open spec fn shows_page(display: Display, page: Page) -> bool {
    &&& display.has_size(page.width, page.height)
    &&& forall|y: int|
        0 <= y < page.rows.len() ==> shows_row(
            #[trigger] display.lines[y],
            page.rows[y],
            (page.width - 1) as nat,
        )
    &&& shows_status(display.lines[page.height - 1], page.status)
}

/// Counting the columns of the first cells gives the column of the next one.
pub proof fn prefix_columns_are_the_columns_before(cells: Seq<Cell>, count: nat)
    requires
        count <= cells.len(),
    ensures
        prefix_columns(cells, count) == columns_before(cells, count as int),
    decreases count,
{
    if count > 0 {
        prefix_columns_are_the_columns_before(cells, (count - 1) as nat);
    }
}

proof fn lemma_columns_behind(cells: Seq<Cell>, same: int, k: int)
    requires
        0 <= same <= k <= cells.len(),
    ensures
        columns_before(cells, k) == columns_before(cells, same) + columns_before(
            cells.skip(same),
            k - same,
        ),
    decreases k - same,
{
    if k > same {
        lemma_columns_behind(cells, same, k - 1);
        assert(cells.skip(same)[k - 1 - same] == cells[k - 1]);
    }
}

proof fn lemma_covered_before(cells: Seq<Cell>, same: int, end: nat, i: int)
    requires
        0 <= same <= cells.len(),
        columns_before(cells, same) <= end,
        0 <= i < columns_before(cells, same),
    ensures
        is_covered(0, cells, end, i),
    decreases same,
{
    if same > 0 {
        lemma_columns_grow(cells, same - 1, same);
        if i < columns_before(cells, same - 1) {
            lemma_covered_before(cells, same - 1, end, i);
        } else {
            assert(covers(0, cells, end, same - 1, i));
        }
    }
}

/// What a line shows of a row is decided by the cells that end before column `end`.
proof fn lemma_same_start(line: Seq<Cell>, before: Seq<Cell>, cells: Seq<Cell>, same: int, end: nat)
    requires
        0 <= same <= before.len(),
        same <= cells.len(),
        forall|k: int| 0 <= k < same ==> before[k] == cells[k],
        columns_before(cells, same) >= end,
        shows_row(line, before, end),
    ensures
        shows_row(line, cells, end),
{
    reveal(shows_row);
    lemma_columns_before(cells.take(same), cells, same);
    lemma_columns_before(cells.take(same), before, same);
    assert forall|k: int|
        0 <= k < cells.len() && !(#[trigger] cells[k]).wide_cont && 0 + columns_before(cells, k)
            + cell_columns(cells[k].ch) <= end implies shows_char(
        line,
        (0 + columns_before(cells, k)) as int,
        cells[k].ch,
        cells[k].style,
    ) by {
        if k >= same {
            if k > same {
                lemma_columns_grow(cells, same, k);
            }
        } else {
            lemma_columns_before(cells.take(k), cells, k);
            lemma_columns_before(cells.take(k), before, k);
            assert(before[k] == cells[k]);
        }
    }
    assert forall|i: int|
        0 <= i < line.len() && !is_covered(0, cells, end, i) implies (#[trigger] line[i]).ch == ' '
        && !line[i].wide_cont by {
        if is_covered(0, before, end, i) {
            let k = choose|k: int| #[trigger] covers(0, before, end, k, i);
            if k >= same {
                if k > same {
                    lemma_columns_grow(before, same, k);
                }
                assert(false);
            }
            lemma_columns_before(before.take(k), cells, k);
            lemma_columns_before(before.take(k), before, k);
            assert(covers(0, cells, end, k, i));
        }
    }
}

proof fn lemma_cleared(display: Display, x: nat, y: u16)
    requires
        x <= 65535,
    ensures
        ({
            let steps = seq![Op::MoveTo { x: display_coordinate(x), y }, Op::ClearRight];
            display.after(steps).lines == display.lines.update(
                y as int,
                cleared(display.lines[y as int], x, display.style.bg),
            )
        }),
{
    let place = Op::MoveTo { x: display_coordinate(x), y };
    let steps = seq![place, Op::ClearRight];
    assert(steps =~= seq![place] + seq![Op::ClearRight]);
    lemma_after(display, seq![place], seq![Op::ClearRight]);
    lemma_one(display, place);
    lemma_one(display.carried(place), Op::ClearRight);
}

proof fn lemma_page_row(
    display: Display,
    y: u16,
    previous: Option<Seq<Cell>>,
    cells: Seq<Cell>,
    end: nat,
)
    requires
        y < display.lines.len(),
        1 <= end <= display.lines[y as int].len() <= 65535,
        previous matches Some(before) ==> shows_row(display.lines[y as int], before, end),
    ensures
        ({
            let after = display.after(row_ops(y, previous, cells, end));
            &&& after.lines.len() == display.lines.len()
            &&& after.lines[y as int].len() == display.lines[y as int].len()
            &&& shows_row(after.lines[y as int], cells, end)
            &&& forall|k: int|
                0 <= k < display.lines.len() && k != y ==> #[trigger] after.lines[k]
                    == display.lines[k]
        }),
{
    let old = display.lines[y as int];
    let same = match previous {
        Some(before) => common_len(before, cells, 0),
        None => 0,
    };
    if let Some(before) = previous {
        common_start_is_longest(before, cells, 0);
    }
    prefix_columns_are_the_columns_before(cells, same as nat);
    let start = columns_before(cells, same);
    if previous == Some(cells) {
    } else if start >= end {
        if let Some(before) = previous {
            lemma_same_start(old, before, cells, same, end);
        }
    } else {
        let rest = cells.skip(same);
        let clear = seq![Op::MoveTo { x: display_coordinate(start), y }, Op::ClearRight];
        let blank = display.after(clear);
        lemma_after(display, clear, cells_ops(y, start, rest, end));
        lemma_cleared(display, start, y);
        drawn_cells_are_shown(blank, y, start, rest, end);
        let line = blank.after(cells_ops(y, start, rest, end)).lines[y as int];
        let before = match previous {
            Some(shown) => shown,
            None => Seq::empty(),
        };
        lemma_redrawn(old, blank.lines[y as int], line, before, cells, same, end);
    }
}

proof fn lemma_redrawn(
    old: Seq<Cell>,
    blank: Seq<Cell>,
    line: Seq<Cell>,
    before: Seq<Cell>,
    cells: Seq<Cell>,
    same: int,
    end: nat,
)
    requires
        0 <= same <= before.len(),
        same <= cells.len(),
        forall|k: int| 0 <= k < same ==> before[k] == cells[k],
        same > 0 ==> shows_row(old, before, end),
        end <= old.len(),
        columns_before(cells, same) < end,
        line.len() == old.len(),
        blank.len() == old.len(),
        forall|i: int|
            0 <= i < old.len() ==> if i < columns_before(cells, same) {
                #[trigger] blank[i] == old[i]
            } else {
                blank[i].ch == ' ' && !blank[i].wide_cont
            },
        shows_cells(line, columns_before(cells, same), cells.skip(same), end),
        forall|i: int|
            0 <= i < old.len() && i < columns_before(cells, same) ==> #[trigger] line[i]
                == blank[i],
        forall|i: int|
            0 <= i < old.len() && !is_covered(
                columns_before(cells, same),
                cells.skip(same),
                end,
                i,
            ) ==> #[trigger] line[i] == blank[i],
    ensures
        shows_row(line, cells, end),
{
    reveal(shows_row);
    let start = columns_before(cells, same);
    let rest = cells.skip(same);
    assert forall|k: int|
        0 <= k < cells.len() && !(#[trigger] cells[k]).wide_cont && 0 + columns_before(cells, k)
            + cell_columns(cells[k].ch) <= end implies shows_char(
        line,
        (0 + columns_before(cells, k)) as int,
        cells[k].ch,
        cells[k].style,
    ) by {
        if k < same {
            lemma_columns_grow(cells, k, same);
            lemma_columns_before(cells.take(k), cells, k);
            lemma_columns_before(cells.take(k), before, k);
            assert(before[k] == cells[k]);
            let at = columns_before(cells, k) as int;
            assert(shows_char(old, at, cells[k].ch, cells[k].style));
            assert(line[at] == blank[at]);
            assert forall|i: int|
                at < i < at + cell_columns(cells[k].ch) implies #[trigger] line[i] == (Cell {
                ch: ' ',
                style: cells[k].style,
                wide_cont: true,
            }) by {
                assert(line[i] == blank[i]);
                assert(blank[i] == old[i]);
            }
        } else {
            lemma_columns_behind(cells, same, k);
            assert(rest[k - same] == cells[k]);
        }
    }
    assert forall|i: int|
        0 <= i < line.len() && !is_covered(0, cells, end, i) implies (#[trigger] line[i]).ch
        == ' ' && !line[i].wide_cont by {
        if i < start {
            lemma_covered_before(cells, same, end, i);
        }
        if is_covered(start, rest, end, i) {
            let k = choose|k: int| #[trigger] covers(start, rest, end, k, i);
            lemma_columns_behind(cells, same, k + same);
            assert(covers(0, cells, end, k + same, i));
        }
        assert(line[i] == blank[i]);
    }
}

proof fn lemma_page_rows(display: Display, page: Page, previous: Option<Page>, count: nat)
    requires
        display.has_size(page.width, page.height),
        2 <= page.width <= 65535,
        2 <= page.height <= 65535,
        page.rows.len() == page.height - 1,
        count <= page.rows.len(),
        forall|y: int|
            0 <= y < page.rows.len() && drawn_before(page, previous, y) is Some ==> shows_row(
                #[trigger] display.lines[y],
                drawn_before(page, previous, y)->0,
                (page.width - 1) as nat,
            ),
    ensures
        ({
            let after = display.after(rows_ops(page, previous, count));
            &&& after.has_size(page.width, page.height)
            &&& forall|y: int|
                0 <= y < count ==> shows_row(
                    #[trigger] after.lines[y],
                    page.rows[y],
                    (page.width - 1) as nat,
                )
            &&& forall|y: int|
                count <= y < page.height ==> #[trigger] after.lines[y] == display.lines[y]
        }),
    decreases count,
{
    if count > 0 {
        let y = count - 1;
        let end = (page.width - 1) as nat;
        let before = display.after(rows_ops(page, previous, y as nat));
        let row = drawn_before(page, previous, y);
        let line = display_coordinate(y as nat);
        lemma_page_rows(display, page, previous, y as nat);
        let steps = row_ops(line, row, page.rows[y], end);
        lemma_after(display, rows_ops(page, previous, y as nat), steps);
        assert(before.lines[y] == display.lines[y]);
        assert(before.lines[y].len() == page.width);
        lemma_page_row(before, line, row, page.rows[y], end);
        let after = before.after(steps);
        assert(after == display.after(rows_ops(page, previous, count)));
        assert forall|k: int| 0 <= k < page.height implies (#[trigger] after.lines[k]).len()
            == page.width by {
            if k != y {
                assert(after.lines[k] == before.lines[k]);
            }
        }
        assert forall|k: int| 0 <= k < count implies shows_row(
            #[trigger] after.lines[k],
            page.rows[k],
            end,
        ) by {
            if k != y {
                assert(after.lines[k] == before.lines[k]);
            }
        }
        assert forall|k: int| count <= k < page.height implies #[trigger] after.lines[k]
            == display.lines[k] by {
            assert(after.lines[k] == before.lines[k]);
        }
    }
}

proof fn lemma_printed_singles(line: Seq<Cell>, text: Seq<char>, style: Style)
    requires
        forall|i: int| 0 <= i < text.len() ==> cell_columns(#[trigger] text[i]) == 1,
    ensures
        text_columns(text) == text.len(),
        printed(line, 0, text, style).len() == line.len(),
        forall|i: int|
            0 <= i < text.len() && i < line.len() ==> #[trigger] printed(line, 0, text, style)[i]
                == (Cell { ch: text[i], style, wide_cont: false }),
    decreases text.len(),
{
    lemma_printed_len(line, 0, text, style);
    if text.len() > 0 {
        let before = text.drop_last();
        assert forall|i: int| 0 <= i < before.len() implies cell_columns(#[trigger] before[i])
            == 1 by {
            assert(before[i] == text[i]);
        }
        lemma_printed_singles(line, before, style);
        let so_far = printed(line, 0, before, style);
        let last = text.len() - 1;
        assert(cell_columns(text[last]) == 1);
        assert(printed(line, 0, text, style) == painted(so_far, last, text.last(), style));
        lemma_painted(so_far, last, text.last(), style);
        assert forall|i: int| 0 <= i < text.len() && i < line.len() implies #[trigger] printed(
            line,
            0,
            text,
            style,
        )[i] == (Cell { ch: text[i], style, wide_cont: false }) by {
            if i < last {
                assert(so_far[i] == (Cell { ch: before[i], style, wide_cont: false }));
                assert(painted(so_far, last, text.last(), style)[i] == so_far[i]);
            } else {
                assert(painted(so_far, last, text.last(), style)[i] == (Cell {
                    ch: text.last(),
                    style,
                    wide_cont: false,
                }));
            }
        }
    }
}

proof fn lemma_status(display: Display, page: Page)
    requires
        display.has_size(page.width, page.height),
        1 <= page.height <= 65535,
    ensures
        ({
            let after = display.after(status_ops(page));
            &&& after.has_size(page.width, page.height)
            &&& shows_status(after.lines[page.height - 1], page.status)
            &&& forall|y: int|
                0 <= y < page.height - 1 ==> #[trigger] after.lines[y] == display.lines[y]
        }),
{
    let y = display_coordinate((page.height - 1) as nat);
    let a = seq![Op::MoveTo { x: 0, y }];
    let b = seq![Op::ClearLine];
    let c = seq![Op::Reset];
    let d = seq![Op::Reverse];
    let e = seq![Op::Print(page.status)];
    let f = seq![Op::Reset];
    assert(status_ops(page) =~= a + b + c + d + e + f);
    lemma_after(display, a + b + c + d + e, f);
    lemma_after(display, a + b + c + d, e);
    lemma_after(display, a + b + c, d);
    lemma_after(display, a + b, c);
    lemma_after(display, a, b);
    lemma_one(display, Op::MoveTo { x: 0, y });
    let d1 = display.carried(Op::MoveTo { x: 0, y });
    lemma_one(d1, Op::ClearLine);
    let d2 = d1.carried(Op::ClearLine);
    lemma_one(d2, Op::Reset);
    let d3 = d2.carried(Op::Reset);
    lemma_one(d3, Op::Reverse);
    let d4 = d3.carried(Op::Reverse);
    lemma_one(d4, Op::Print(page.status));
    let d5 = d4.carried(Op::Print(page.status));
    lemma_one(d5, Op::Reset);
    let style = Style { reverse: true, ..plain_style() };
    let line = d4.lines[y as int];
    assert(display.lines[y as int].len() == page.width);
    lemma_printed_len(line, 0, page.status, style);
    if forall|i: int| 0 <= i < page.status.len() ==> cell_columns(#[trigger] page.status[i]) == 1 {
        lemma_printed_singles(line, page.status, style);
    }
    let after = display.after(status_ops(page));
    assert(after.lines == d5.lines);
    assert forall|k: int| 0 <= k < page.height implies (#[trigger] after.lines[k]).len()
        == page.width by {
        if k != y {
            assert(after.lines[k] == display.lines[k]);
        }
    }
}

/// Carrying out the steps of a drawing leaves the page on the display: each row with its
/// characters and their styles from the first column on, blanks behind them, and the status
/// below. This holds on a display that shows the page before, and on any display if there is
/// no page before or it had another shape.
pub proof fn drawing_leaves_the_page(display: Display, page: Page, previous: Option<Page>)
    requires
        display.has_size(page.width, page.height),
        2 <= page.width <= 65535,
        2 <= page.height <= 65535,
        page.rows.len() == page.height - 1,
        previous matches Some(before) ==> before.width != page.width || before.height
            != page.height || before.rows.len() != page.rows.len() || shows_page(display, before),
    ensures
        shows_page(display.after(page_ops(page, previous)), page),
{
    let count = page.rows.len();
    let rows = rows_ops(page, previous, count);
    let drawn = display.after(rows);
    assert forall|y: int|
        0 <= y < page.rows.len() && drawn_before(page, previous, y) is Some implies shows_row(
        #[trigger] display.lines[y],
        drawn_before(page, previous, y)->0,
        (page.width - 1) as nat,
    ) by {
        let before = previous->0;
        assert(shows_row(display.lines[y], before.rows[y], (before.width - 1) as nat));
    }
    lemma_page_rows(display, page, previous, count);
    assert(drawn.lines[page.height - 1] == display.lines[page.height - 1]);
    if status_drawn(page, previous) {
        assert(rows + Seq::<Op>::empty() =~= rows);
    } else {
        lemma_after(display, rows, status_ops(page));
        lemma_status(drawn, page);
        let after = drawn.after(status_ops(page));
        assert forall|y: int| 0 <= y < page.rows.len() implies shows_row(
            #[trigger] after.lines[y],
            page.rows[y],
            (page.width - 1) as nat,
        ) by {
            assert(after.lines[y] == drawn.lines[y]);
        }
    }
}

/// Drawing the standalone viewer shows the log from the row at the top of the view on, and
/// the status below.
pub proof fn the_log_is_on_the_display(
    pager: Pager,
    dims: ViewportDims,
    display: Display,
    y: int,
)
    requires
        display.has_size(dims.width as nat, dims.height as nat),
        dims.width >= 2,
        dims.height >= 2,
        pager.page matches Some(before) ==> before.width != dims.width || before.height
            != dims.height || before.rows.len() != dims.height - 1 || shows_page(display, before),
        0 <= y < dims.height - 1,
    ensures
        ({
            let after = display.after(pager.drawing(dims));
            let settled = pager.settled(dims);
            let row = settled.viewer.top + y;
            &&& shows_page(after, pager.drawn(dims).page->0)
            &&& pager.selection is None ==> shows_row(
                after.lines[y],
                settled.viewer.row_cells(row),
                (dims.width - 1) as nat,
            )
            &&& pager.selection matches Some(selection) ==> shows_row(
                after.lines[y],
                crate::selection::highlighted(settled.viewer.row_cells(row), row, selection),
                (dims.width - 1) as nat,
            )
            &&& shows_status(
                after.lines[dims.height - 1],
                settled.viewer.status_line(
                    dims.height as nat,
                    dims.width as nat,
                    settled.status_override(),
                ),
            )
        }),
{
    let settled = pager.settled(dims);
    let page = settled.picture(dims);
    drawing_leaves_the_page(display, page, pager.page);
    let after = display.after(pager.drawing(dims));
    assert(shows_row(after.lines[y], page.rows[y], (page.width - 1) as nat));
    assert(page.rows[y] == settled.line(y));
    assert(settled.selection == pager.selection);
}

/// The log pane shows the log from the row at the top of the view on, line by line, with the
/// text of each row from the first column on. Rows without the cursor are shown as they are
/// while nothing is selected.
pub proof fn the_log_is_beside_the_program(view: Split, dims: SplitDims, y: int, k: int)
    requires
        dims.wf(),
        dims.rows >= 2,
        0 <= y < dims.rows - 1,
        ({
            let cells = view.left.row_cells(view.left.top + y);
            &&& 0 <= k < cells.len()
            &&& crate::selection::row_is_whole(cells)
            &&& !cells[k].wide_cont
            &&& columns_before(cells, k) + cell_columns(cells[k].ch) <= dims.left_cols
        }),
    ensures
        ({
            let cells = view.left.row_cells(view.left.top + y);
            let row = view.picture(dims).rows[y];
            let at = columns_before(cells, k) as int;
            &&& row[at].ch == cells[k].ch
            &&& !row[at].wide_cont
            &&& view.selection is None && view.left.top + y != view.cursor.row ==> row[at]
                == cells[k]
        }),
{
    the_picture_shows_both_panes(view, dims, y);
    let index = view.left.top + y;
    let cells = view.left.row_cells(index);
    let marked = view.highlighted_row(Focus::Left, index, cells);
    if let Some(active) = view.selection {
        crate::selection::highlighting_keeps_text(cells, index, active.selection);
    }
    let shown = view.left_line(y);
    assert(marked.len() == cells.len());
    crate::selection::normal_column_settles(marked, view.cursor.col as int);
    assert forall|i: int| 0 <= i < cells.len() implies (#[trigger] shown[i]).ch == cells[i].ch
        && shown[i].wide_cont == cells[i].wide_cont by {
        assert(marked[i].ch == cells[i].ch && marked[i].wide_cont == cells[i].wide_cont);
    }
    assert(shown.len() == cells.len());
    lemma_same_columns(cells, shown, k);
    assert(shown[k].ch == cells[k].ch);
    let row = view.picture(dims).rows[y];
    assert(shows_char(
        row,
        (0 + columns_before(shown, k)) as int,
        shown[k].ch,
        shown[k].style,
    ));
}

proof fn lemma_five(display: Display, a: Op, b: Op, c: Op, d: Op, e: Op)
    ensures
        display.after(seq![a, b, c, d, e]) == display.carried(a).carried(b).carried(c).carried(
            d,
        ).carried(e),
{
    lemma_one(display, a);
    let s1 = seq![a];
    let s2 = seq![a, b];
    let s3 = seq![a, b, c];
    let s4 = seq![a, b, c, d];
    let s5 = seq![a, b, c, d, e];
    assert(s2.drop_last() =~= s1 && s2.last() == b);
    assert(display.after(s2) == display.after(s1).carried(b));
    assert(s3.drop_last() =~= s2 && s3.last() == c);
    assert(display.after(s3) == display.after(s2).carried(c));
    assert(s4.drop_last() =~= s3 && s4.last() == d);
    assert(display.after(s4) == display.after(s3).carried(d));
    assert(s5.drop_last() =~= s4 && s5.last() == e);
    assert(display.after(s5) == display.after(s4).carried(e));
}

/// What is being typed beside a program is shown reversed at the start of the last row, in
/// the columns of the log; the rest of the display stays as it is.
pub proof fn typing_is_shown_below_the_log(
    display: Display,
    prompt: Seq<char>,
    line: Seq<char>,
    dims: SplitDims,
)
    requires
        1 <= dims.rows <= 65535,
        display.lines.len() == dims.rows,
    ensures
        ({
            let after = display.after(crate::split_model::prompt_ops(prompt, line, dims));
            let shown = (prompt + line).take(
                if prompt.len() + line.len() < dims.left_cols {
                    (prompt.len() + line.len()) as int
                } else {
                    dims.left_cols as int
                },
            );
            let rest = repeated(' ', (dims.left_cols - shown.len()) as nat);
            after.lines == display.lines.update(
                dims.rows - 1,
                printed(
                    display.lines[dims.rows - 1],
                    0,
                    shown + rest,
                    Style { reverse: true, ..plain_style() },
                ),
            )
        }),
{
    let fitted = crate::text::fitted(prompt + line, dims.left_cols as nat);
    lemma_five(
        display,
        Op::MoveTo { x: 0, y: display_coordinate((dims.rows - 1) as nat) },
        Op::Reset,
        Op::Reverse,
        Op::Print(fitted),
        Op::Reset,
    );
    let text = prompt + line;
    if text.len() >= dims.left_cols {
        assert(fitted =~= text.take(dims.left_cols as int) + repeated(' ', 0));
    } else {
        assert(text.take(text.len() as int) =~= text);
    }
}

/// What is being typed in the pager is shown in the last row, which is cleared for it; the
/// rest of the display stays as it is.
pub proof fn typing_is_shown_in_the_last_row(
    display: Display,
    prompt: Seq<char>,
    line: Seq<char>,
    dims: ViewportDims,
)
    requires
        dims.height >= 1,
        display.lines.len() == dims.height,
        display.style == plain_style(),
    ensures
        ({
            let after = display.after(crate::pager::page_prompt_ops(prompt, line, dims));
            let last = display.lines[dims.height - 1];
            after.lines == display.lines.update(
                dims.height - 1,
                printed(
                    cleared(last, 0, None),
                    0,
                    prompt + line,
                    Style { reverse: true, ..plain_style() },
                ),
            )
        }),
{
    lemma_five(
        display,
        Op::MoveTo {
            x: 0,
            y: display_coordinate(crate::pager::one_less(dims.height as nat)),
        },
        Op::Reverse,
        Op::ClearLine,
        Op::Print(prompt + line),
        Op::Reset,
    );
    let last = display.lines[dims.height - 1];
    let blank = cleared(last, 0, None);
    let style = Style { reverse: true, ..plain_style() };
    let y = dims.height - 1;
    assert(display.lines.update(y, blank).update(y, printed(blank, 0, prompt + line, style))
        =~= display.lines.update(y, printed(blank, 0, prompt + line, style)));
}

} // verus!
