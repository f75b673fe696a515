//! A virtual terminal: it replays terminal output and keeps the screen and its history.

use crate::cell::{
    columns_of, fitted_row, grid, normalize_row_width, plain_style, row_text, row_to_text,
    rows_text, trim_row, trimmed_row, trimmed_rows, trimming_keeps_the_start, Cell, Style,
};
use crate::screen::{
    blank_row, blank_rows, cancels_wrap, code_at, csi_body, csi_number, csi_numbers, extended_color,
    extended_len, is_final, low_byte, min, palette_entry, param, resize_keeps_validity, sgr_code,
    sgr_codes, sgr_from, sgr_style, well_formed_csi, ParseState, Position, Screen,
};
use crate::text::{before_text, parse_unsigned, split, split_text, texts};
use vstd::prelude::*;

verus! {

#[derive(Debug, Clone, Copy)]
struct Cursor {
    row: usize,
    col: usize,
}

impl Cursor {
    spec fn position(self) -> Position {
        Position { row: self.row as nat, col: self.col as nat }
    }
}

/// A terminal without a display.
#[derive(Debug)]
pub struct VirtualTerminal {
    rows: usize,
    cols: usize,
    history: Vec<Vec<Cell>>,
    current_style: Style,
    screen: Vec<Vec<Cell>>,
    cursor: Cursor,
    saved_cursor: Cursor,
    wrap_pending: bool,
    state: ParseState,
    csi: Vec<char>,
    esc_other: Vec<char>,
    osc: Vec<char>,
    osc_escape: bool,
    sync_active: bool,
    line_dirty_min_col: Option<usize>,
}

impl View for VirtualTerminal {
    type V = Screen;

    closed spec fn view(&self) -> Screen {
        Screen {
            rows: self.rows as nat,
            cols: self.cols as nat,
            history: grid(self.history@),
            style: self.current_style,
            lines: grid(self.screen@),
            cursor: self.cursor.position(),
            saved: self.saved_cursor.position(),
            wrap_pending: self.wrap_pending,
            state: self.state,
            csi: self.csi@,
            esc_other: self.esc_other@,
            osc: self.osc@,
            osc_escape: self.osc_escape,
            sync_active: self.sync_active,
            dirty: match self.line_dirty_min_col {
                Some(col) => Some(col as nat),
                None => None,
            },
        }
    }
}

/// A row of `cols` blanks.
fn make_blank_row(cols: usize, style: Style) -> (r: Vec<Cell>)
    ensures
        r@ == blank_row(cols as nat, style),
{
    let r: Vec<Cell> = vec![Cell::blank(style); cols];
    assert(r@ =~= blank_row(cols as nat, style));
    r
}

/// `rows` rows of `cols` blanks.
fn make_blank_rows(rows: usize, cols: usize, style: Style) -> (r: Vec<Vec<Cell>>)
    ensures
        grid(r@) == blank_rows(rows as nat, cols as nat, style),
{
    let mut out: Vec<Vec<Cell>> = Vec::new();
    while out.len() < rows
        invariant
            out@.len() <= rows,
            forall|k: int|
                0 <= k < out@.len() ==> (#[trigger] out@[k])@ == blank_row(cols as nat, style),
        decreases rows - out@.len(),
    {
        out.push(make_blank_row(cols, style));
    }
    assert(grid(out@) =~= blank_rows(rows as nat, cols as nat, style));
    out
}

impl VirtualTerminal {
    /// A blank terminal of at least one row and one column.
    pub fn new(rows: usize, cols: usize) -> (r: Self)
        ensures
            r@.wf(),
            r@ == Screen::initial(
                if rows == 0 {
                    1
                } else {
                    rows as nat
                },
                if cols == 0 {
                    1
                } else {
                    cols as nat
                },
                Seq::empty(),
            ),
    {
        let rows: usize = if rows == 0 {
            1
        } else {
            rows
        };
        let cols: usize = if cols == 0 {
            1
        } else {
            cols
        };
        let term = VirtualTerminal {
            rows,
            cols,
            history: Vec::new(),
            current_style: Style::default(),
            screen: make_blank_rows(rows, cols, Style::default()),
            cursor: Cursor { row: 0, col: 0 },
            saved_cursor: Cursor { row: 0, col: 0 },
            wrap_pending: false,
            state: ParseState::Normal,
            csi: Vec::new(),
            esc_other: Vec::new(),
            osc: Vec::new(),
            osc_escape: false,
            sync_active: false,
            line_dirty_min_col: None,
        };
        assert(term@ =~= Screen::initial(rows as nat, cols as nat, Seq::empty()));
        term
    }

    /// Blanks the screen and returns to the initial state.
    pub fn reset(&mut self, preserve_history: bool)
        requires
            old(self)@.wf(),
        ensures
            final(self)@.wf(),
            final(self)@ == old(self)@.reset(preserve_history),
    {
        if !preserve_history {
            self.history.clear();
        }
        self.current_style = Style::default();
        self.screen = make_blank_rows(self.rows, self.cols, self.current_style);
        self.cursor = Cursor { row: 0, col: 0 };
        self.saved_cursor = Cursor { row: 0, col: 0 };
        self.wrap_pending = false;
        self.state = ParseState::Normal;
        self.csi.clear();
        self.esc_other.clear();
        self.osc.clear();
        self.osc_escape = false;
        self.sync_active = false;
        self.line_dirty_min_col = None;
        assert(self@ =~= old(self)@.reset(preserve_history));
    }

    /// Becomes a blank terminal of another size, without history.
    pub fn reset_to_size(&mut self, rows: usize, cols: usize)
        ensures
            final(self)@.wf(),
            final(self)@ == Screen::initial(
                if rows == 0 {
                    1
                } else {
                    rows as nat
                },
                if cols == 0 {
                    1
                } else {
                    cols as nat
                },
                Seq::empty(),
            ),
    {
        *self = VirtualTerminal::new(rows, cols);
    }

    /// The number of rows on the screen.
    pub fn rows(&self) -> (r: usize)
        ensures
            r == self@.rows,
    {
        self.rows
    }

    /// The number of columns.
    pub fn cols(&self) -> (r: usize)
        ensures
            r == self@.cols,
    {
        self.cols
    }

    /// The number of rows that have left the screen.
    pub fn history_len(&self) -> (r: usize)
        ensures
            r == self@.history.len(),
    {
        self.history.len()
    }

    /// The rows that have left the screen, oldest first.
    pub fn history_rows(&self) -> (r: &[Vec<Cell>])
        ensures
            grid(r@) == self@.history,
    {
        self.history.as_slice()
    }

    /// The rows on the screen.
    pub fn screen_rows(&self) -> (r: &[Vec<Cell>])
        ensures
            grid(r@) == self@.lines,
    {
        self.screen.as_slice()
    }

    /// The rows on the screen, each without the blanks at its end.
    pub fn trimmed_screen_rows(&self) -> (r: Vec<Vec<Cell>>)
        ensures
            grid(r@) == trimmed_rows(self@.lines),
    {
        let mut out: Vec<Vec<Cell>> = Vec::new();
        let mut i: usize = 0;
        while i < self.screen.len()
            invariant
                i <= self.screen@.len(),
                out@.len() == i,
                forall|k: int| 0 <= k < i ==> (#[trigger] out@[k])@ == trimmed_row(self@.lines[k]),
            decreases self.screen@.len() - i,
        {
            out.push(trim_row(self.screen[i].as_slice()));
            i += 1;
        }
        assert(grid(out@) =~= trimmed_rows(self@.lines));
        out
    }

    /// The history, then the screen without the blanks at the ends of its rows.
    pub fn rendered_rows(&self) -> (r: Vec<Vec<Cell>>)
        ensures
            grid(r@) == self@.rendered_rows(),
    {
        let mut out: Vec<Vec<Cell>> = Vec::new();
        let mut i: usize = 0;
        while i < self.history.len()
            invariant
                i <= self.history@.len(),
                out@.len() == i,
                forall|k: int| 0 <= k < i ==> (#[trigger] out@[k])@ == self@.history[k],
            decreases self.history@.len() - i,
        {
            out.push(vstd::slice::slice_to_vec(self.history[i].as_slice()));
            i += 1;
        }
        let mut screen: Vec<Vec<Cell>> = self.trimmed_screen_rows();
        let ghost below = screen@;
        out.append(&mut screen);
        assert(forall|k: int| 0 <= k < below.len() ==> (#[trigger] below[k])@ == grid(below)[k]);
        assert(grid(out@) =~= self@.rendered_rows());
        out
    }

    /// The text of every row, the history first.
    pub fn rendered_lines(&self) -> (r: Vec<String>)
        ensures
            r.deep_view() == rows_text(self@.history) + rows_text(self@.lines),
    {
        let mut out: Vec<String> = Vec::new();
        let mut i: usize = 0;
        while i < self.history.len()
            invariant
                i <= self.history@.len(),
                out@.len() == i,
                forall|k: int| 0 <= k < i ==> (#[trigger] out@[k])@ == row_text(self@.history[k]),
            decreases self.history@.len() - i,
        {
            out.push(row_to_text(self.history[i].as_slice()));
            i += 1;
        }
        let mut j: usize = 0;
        while j < self.screen.len()
            invariant
                j <= self.screen@.len(),
                out@.len() == self.history@.len() + j,
                forall|k: int|
                    0 <= k < self.history@.len() ==> (#[trigger] out@[k])@ == row_text(
                        self@.history[k],
                    ),
                forall|k: int|
                    self.history@.len() <= k < out@.len() ==> (#[trigger] out@[k])@ == row_text(
                        self@.lines[k - self.history@.len()],
                    ),
            decreases self.screen@.len() - j,
        {
            out.push(row_to_text(self.screen[j].as_slice()));
            j += 1;
        }
        assert(out.deep_view() =~= rows_text(self@.history) + rows_text(self@.lines));
        out
    }

    // Elementary changes
    // ------------------

    fn mark_line_dirty(&mut self, col: usize)
        requires
            old(self)@.wf(),
        ensures
            final(self)@.wf(),
            final(self)@ == old(self)@.mark_dirty(col as nat),
    {
        self.line_dirty_min_col = match self.line_dirty_min_col {
            Some(current) => Some(
                if current <= col {
                    current
                } else {
                    col
                },
            ),
            None => Some(col),
        };
        assert(self@ =~= old(self)@.mark_dirty(col as nat));
    }

    fn cancel_wrap_pending(&mut self)
        requires
            old(self)@.wf(),
        ensures
            final(self)@.wf(),
            final(self)@ == old(self)@.cancel_wrap(),
    {
        self.wrap_pending = false;
        assert(self@ =~= old(self)@.cancel_wrap());
    }

    fn blank_row(&self) -> (r: Vec<Cell>)
        ensures
            r@ == self@.blank(),
    {
        make_blank_row(self.cols, self.current_style)
    }

    /// Moves one row into the history.
    fn scroll_up_once(&mut self)
        requires
            old(self)@.wf(),
        ensures
            final(self)@.wf(),
            final(self)@ == old(self)@.scroll_up(1),
    {
        let first: Vec<Cell> = self.screen.remove(0);
        proof {
            trimming_keeps_the_start(first@);
        }
        self.history.push(trim_row(first.as_slice()));
        let blank: Vec<Cell> = self.blank_row();
        self.screen.push(blank);
        assert(self@.history =~= old(self)@.scroll_up(1).history);
        assert(self@.lines =~= old(self)@.scroll_up(1).lines);
    }

    fn scroll_up(&mut self, amount: usize)
        requires
            old(self)@.wf(),
        ensures
            final(self)@.wf(),
            final(self)@ == old(self)@.scroll_up(amount as nat),
    {
        let ghost start = self@;
        let mut done: usize = 0;
        assert(self@ =~= start.scroll_up(0));
        while done < amount
            invariant
                done <= amount,
                start.wf(),
                self@.wf(),
                self@ == start.scroll_up(done as nat),
            decreases amount - done,
        {
            self.scroll_up_once();
            proof {
                lemma_scroll_up_step(start, done as nat);
            }
            done += 1;
        }
    }

    fn scroll_down(&mut self, amount: usize)
        requires
            old(self)@.wf(),
        ensures
            final(self)@.wf(),
            final(self)@ == old(self)@.scroll_down(amount as nat),
    {
        let amount: usize = if amount < self.rows {
            amount
        } else {
            self.rows
        };
        let ghost start = self@;
        let mut done: usize = 0;
        assert(self@ =~= start.scroll_down(0));
        while done < amount
            invariant
                done <= amount,
                start.wf(),
                self@.wf(),
                self@ == start.scroll_down(done as nat),
            decreases amount - done,
        {
            let ghost before = self@;
            self.screen.pop();
            let blank: Vec<Cell> = self.blank_row();
            self.screen.insert(0, blank);
            assert(self@ =~= before.scroll_down(1));
            assert(before.scroll_down(1) =~= start.scroll_down((done + 1) as nat));
            done += 1;
        }
        assert(self@.lines =~= old(self)@.scroll_down(amount as nat).lines);
    }

    fn should_use_sync_status_scroll_region(&self) -> (r: bool)
        requires
            self@.wf(),
        ensures
            r == self@.in_status_area(),
    {
        match self.line_dirty_min_col {
            Some(col) => self.sync_active && self.cursor.row + 1 >= self.rows && col >= self.cols
                / 2,
            None => false,
        }
    }

    fn scroll_sync_status_area_up(&mut self)
        requires
            old(self)@.wf(),
        ensures
            final(self)@.wf(),
            final(self)@ == old(self)@.scroll_status_area(),
    {
        if self.rows == 1 {
            return;
        }
        let start: usize = if self.rows < 3 {
            0
        } else {
            self.rows - 3
        };
        self.screen.remove(start);
        let blank: Vec<Cell> = self.blank_row();
        self.screen.push(blank);
        assert(self@.lines =~= old(self)@.scroll_status_area().lines);
    }

    fn linefeed(&mut self)
        requires
            old(self)@.wf(),
        ensures
            final(self)@.wf(),
            final(self)@ == old(self)@.linefeed(),
    {
        if self.cursor.row + 1 < self.rows {
            self.cursor.row += 1;
        } else if self.should_use_sync_status_scroll_region() {
            self.scroll_sync_status_area_up();
        } else {
            self.scroll_up(1);
        }
        self.line_dirty_min_col = None;
        assert(self@ =~= old(self)@.linefeed());
    }

    fn reverse_index(&mut self)
        requires
            old(self)@.wf(),
        ensures
            final(self)@.wf(),
            final(self)@ == old(self)@.reverse_index(),
    {
        if self.cursor.row > 0 {
            self.cursor.row -= 1;
        } else {
            self.scroll_down(1);
        }
        self.line_dirty_min_col = None;
        assert(self@ =~= old(self)@.reverse_index());
    }

    fn cursor_up(&mut self, amount: usize)
        requires
            old(self)@.wf(),
        ensures
            final(self)@.wf(),
            final(self)@ == old(self)@.cursor_up(amount as nat),
    {
        if amount > 0 {
            self.line_dirty_min_col = None;
        }
        self.cursor.row = self.cursor.row.saturating_sub(amount);
        assert(self@ =~= old(self)@.cursor_up(amount as nat));
    }

    fn cursor_down(&mut self, amount: usize)
        requires
            old(self)@.wf(),
        ensures
            final(self)@.wf(),
            final(self)@ == old(self)@.cursor_down(amount as nat),
    {
        if amount > 0 {
            self.line_dirty_min_col = None;
        }
        let last: usize = self.rows - 1;
        if amount > last - self.cursor.row {
            self.cursor.row = last;
        } else {
            self.cursor.row += amount;
        }
        assert(self@ =~= old(self)@.cursor_down(amount as nat));
    }

    fn cursor_right(&mut self, amount: usize)
        requires
            old(self)@.wf(),
        ensures
            final(self)@.wf(),
            final(self)@ == old(self)@.cursor_right(amount as nat),
    {
        let last: usize = self.cols - 1;
        if amount > last - self.cursor.col {
            self.cursor.col = last;
        } else {
            self.cursor.col += amount;
        }
        assert(self@ =~= old(self)@.cursor_right(amount as nat));
    }

    fn cursor_left(&mut self, amount: usize)
        requires
            old(self)@.wf(),
        ensures
            final(self)@.wf(),
            final(self)@ == old(self)@.cursor_left(amount as nat),
    {
        self.cursor.col = self.cursor.col.saturating_sub(amount);
        assert(self@ =~= old(self)@.cursor_left(amount as nat));
    }

    fn set_col(&mut self, col: usize)
        requires
            old(self)@.wf(),
        ensures
            final(self)@.wf(),
            final(self)@ == old(self)@.with_col(min((old(self)@.cols - 1) as nat, col as nat)),
    {
        self.cursor.col = if col < self.cols {
            col
        } else {
            self.cols - 1
        };
        assert(self@ =~= old(self)@.with_col(min((old(self)@.cols - 1) as nat, col as nat)));
    }

    fn move_to(&mut self, row: usize, col: usize)
        requires
            old(self)@.wf(),
        ensures
            final(self)@.wf(),
            final(self)@ == old(self)@.move_to(row as nat, col as nat),
    {
        if row != self.cursor.row {
            self.line_dirty_min_col = None;
        }
        self.cursor.row = if row < self.rows {
            row
        } else {
            self.rows - 1
        };
        self.cursor.col = if col < self.cols {
            col
        } else {
            self.cols - 1
        };
        assert(self@ =~= old(self)@.move_to(row as nat, col as nat));
    }

    fn tab(&mut self)
        requires
            old(self)@.wf(),
        ensures
            final(self)@.wf(),
            final(self)@ == old(self)@.tab(),
    {
        let last: usize = self.cols - 1;
        let step: usize = 8 - self.cursor.col % 8;
        if step > last - self.cursor.col {
            self.cursor.col = last;
        } else {
            self.cursor.col += step;
        }
        assert(self@ =~= old(self)@.tab());
    }

    /// Blanks the cells of the cursor's line in `[from, to)`.
    fn blank_cells(&mut self, from: usize, to: usize)
        requires
            old(self)@.wf(),
        ensures
            final(self)@.wf(),
            final(self)@ == old(self)@.blank_cells(from as nat, to as nat),
    {
        let cols: usize = self.cols;
        let end: usize = if to < cols {
            to
        } else {
            cols
        };
        let blank: Cell = Cell::blank(self.current_style);
        let r: usize = self.cursor.row;
        let ghost line = self@.line();
        let row: &mut Vec<Cell> = &mut self.screen[r];
        let mut i: usize = from;
        while i < end
            invariant
                end <= cols,
                from <= i,
                i <= end || i == from,
                row@.len() == cols,
                line.len() == cols,
                forall|k: int|
                    0 <= k < cols ==> row@[k] == (if from <= k < i {
                        blank
                    } else {
                        line[k]
                    }),
            decreases end - i,
        {
            row[i] = blank;
            i += 1;
        }
        assert(row@ =~= Seq::new(
            cols as nat,
            |k: int|
                if from <= k < to {
                    blank
                } else {
                    line[k]
                },
        ));
        assert(self@.lines =~= old(self)@.blank_cells(from as nat, to as nat).lines);
    }

    /// Blanks the rows in `[from, to)`.
    fn blank_lines(&mut self, from: usize, to: usize)
        requires
            old(self)@.wf(),
            to <= old(self)@.rows,
        ensures
            final(self)@.wf(),
            final(self)@ == old(self)@.blank_lines(from as nat, to as nat),
    {
        let ghost start = self@;
        let mut i: usize = from;
        while i < to
            invariant
                to <= start.rows,
                start.wf(),
                self@.wf(),
                from <= i,
                i <= to || i == from,
                self@.lines.len() == start.rows,
                forall|k: int|
                    0 <= k < start.rows ==> #[trigger] self@.lines[k] == (if from <= k < i {
                        start.blank()
                    } else {
                        start.lines[k]
                    }),
                self@ == (Screen { lines: self@.lines, ..start }),
            decreases to - i,
        {
            let ghost before = self@;
            let blank: Vec<Cell> = self.blank_row();
            self.screen.set(i, blank);
            assert(self@.lines =~= before.lines.update(i as int, start.blank()));
            i += 1;
        }
        assert(self@.lines =~= old(self)@.blank_lines(from as nat, to as nat).lines);
    }

    fn erase_in_line(&mut self, mode: usize)
        requires
            old(self)@.wf(),
        ensures
            final(self)@.wf(),
            final(self)@ == old(self)@.erase_in_line(mode as nat),
    {
        let col: usize = self.cursor.col;
        let cols: usize = self.cols;
        if mode == 0 {
            self.mark_line_dirty(col);
            self.blank_cells(col, cols);
        } else if mode == 1 {
            self.mark_line_dirty(0);
            self.blank_cells(0, col + 1);
        } else {
            self.mark_line_dirty(0);
            self.blank_cells(0, cols);
        }
    }

    fn erase_in_display(&mut self, mode: usize)
        requires
            old(self)@.wf(),
        ensures
            final(self)@.wf(),
            final(self)@ == old(self)@.erase_in_display(mode as nat),
    {
        let row: usize = self.cursor.row;
        let rows: usize = self.rows;
        if mode == 0 {
            self.erase_in_line(0);
            self.blank_lines(row + 1, rows);
        } else if mode == 1 {
            self.erase_in_line(1);
            self.blank_lines(0, row);
        } else {
            self.blank_lines(0, rows);
        }
    }

    fn insert_lines(&mut self, amount: usize)
        requires
            old(self)@.wf(),
        ensures
            final(self)@.wf(),
            final(self)@ == old(self)@.insert_lines(amount as nat),
    {
        let row: usize = self.cursor.row;
        self.line_dirty_min_col = None;
        let amount: usize = if amount < self.rows - row {
            amount
        } else {
            self.rows - row
        };
        let ghost start = self@;
        let mut done: usize = 0;
        assert(self@ =~= start.insert_lines(0));
        while done < amount
            invariant
                done <= amount,
                amount <= start.rows - row,
                row == start.cursor.row,
                start.wf(),
                self@.wf(),
                self@ == start.insert_lines(done as nat),
            decreases amount - done,
        {
            let ghost before = self@;
            let blank: Vec<Cell> = self.blank_row();
            self.screen.insert(row, blank);
            self.screen.pop();
            assert(self@.lines =~= before.insert_lines(1).lines);
            assert(before.insert_lines(1).lines =~= start.insert_lines((done + 1) as nat).lines);
            done += 1;
        }
        assert(self@.lines =~= old(self)@.insert_lines(amount as nat).lines);
    }

    fn delete_lines(&mut self, amount: usize)
        requires
            old(self)@.wf(),
        ensures
            final(self)@.wf(),
            final(self)@ == old(self)@.delete_lines(amount as nat),
    {
        let row: usize = self.cursor.row;
        self.line_dirty_min_col = None;
        let amount: usize = if amount < self.rows - row {
            amount
        } else {
            self.rows - row
        };
        let ghost start = self@;
        let mut done: usize = 0;
        assert(self@ =~= start.delete_lines(0));
        while done < amount
            invariant
                done <= amount,
                amount <= start.rows - row,
                row == start.cursor.row,
                start.wf(),
                self@.wf(),
                self@ == start.delete_lines(done as nat),
            decreases amount - done,
        {
            let ghost before = self@;
            self.screen.remove(row);
            let blank: Vec<Cell> = self.blank_row();
            self.screen.push(blank);
            assert(self@.lines =~= before.delete_lines(1).lines);
            assert(before.delete_lines(1).lines =~= start.delete_lines((done + 1) as nat).lines);
            done += 1;
        }
        assert(self@.lines =~= old(self)@.delete_lines(amount as nat).lines);
    }

    fn insert_chars(&mut self, amount: usize)
        requires
            old(self)@.wf(),
        ensures
            final(self)@.wf(),
            final(self)@ == old(self)@.insert_chars(amount as nat),
    {
        let col: usize = self.cursor.col;
        self.mark_line_dirty(col);
        let r: usize = self.cursor.row;
        let cols: usize = self.cols;
        let blank: Cell = Cell::blank(self.current_style);
        let count: usize = if amount < cols - col {
            amount
        } else {
            cols - col
        };
        let ghost line = self@.line();
        let row: &mut Vec<Cell> = &mut self.screen[r];
        let mut done: usize = 0;
        while done < count
            invariant
                done <= count <= cols - col,
                row@.len() == cols,
                line.len() == cols,
                forall|i: int|
                    0 <= i < cols ==> row@[i] == (if i < col {
                        line[i]
                    } else if i < col + done {
                        blank
                    } else {
                        line[i - done]
                    }),
            decreases count - done,
        {
            row.insert(col, blank);
            row.pop();
            done += 1;
        }
        assert(row@ =~= Seq::new(
            cols as nat,
            |i: int|
                if i < col {
                    line[i]
                } else if i < col + amount {
                    blank
                } else {
                    line[i - amount]
                },
        ));
        assert(self@.lines =~= old(self)@.insert_chars(amount as nat).lines);
    }

    fn delete_chars(&mut self, amount: usize)
        requires
            old(self)@.wf(),
        ensures
            final(self)@.wf(),
            final(self)@ == old(self)@.delete_chars(amount as nat),
    {
        let col: usize = self.cursor.col;
        self.mark_line_dirty(col);
        let r: usize = self.cursor.row;
        let cols: usize = self.cols;
        let blank: Cell = Cell::blank(self.current_style);
        let count: usize = if amount < cols - col {
            amount
        } else {
            cols - col
        };
        let ghost line = self@.line();
        let row: &mut Vec<Cell> = &mut self.screen[r];
        let mut done: usize = 0;
        while done < count
            invariant
                done <= count <= cols - col,
                col < cols,
                row@.len() == cols,
                line.len() == cols,
                forall|i: int|
                    0 <= i < cols ==> row@[i] == (if i < col {
                        line[i]
                    } else if i + done < cols {
                        line[i + done]
                    } else {
                        blank
                    }),
            decreases count - done,
        {
            row.remove(col);
            row.push(blank);
            done += 1;
        }
        assert(row@ =~= Seq::new(
            cols as nat,
            |i: int|
                if i < col {
                    line[i]
                } else if i + amount < cols {
                    line[i + amount]
                } else {
                    blank
                },
        ));
        assert(self@.lines =~= old(self)@.delete_chars(amount as nat).lines);
    }

    fn erase_chars(&mut self, amount: usize)
        requires
            old(self)@.wf(),
        ensures
            final(self)@.wf(),
            final(self)@ == old(self)@.erase_chars(amount as nat),
    {
        let col: usize = self.cursor.col;
        self.mark_line_dirty(col);
        let end: usize = col.saturating_add(amount);
        let ghost marked = self@;
        self.blank_cells(col, end);
        assert(marked.blank_cells(col as nat, end as nat).line() =~= marked.blank_cells(
            col as nat,
            (col + amount) as nat,
        ).line());
    }

    fn put_char(&mut self, ch: char)
        requires
            old(self)@.wf(),
        ensures
            final(self)@.wf(),
            final(self)@ == old(self)@.put_char(ch),
    {
        if self.wrap_pending {
            self.linefeed();
            self.cursor.col = 0;
            self.wrap_pending = false;
        }
        assert(self@ =~= old(self)@.wrap());
        let width: usize = columns_of(ch);
        if width > self.cols {
            return;
        }
        if width == 2 && self.cursor.col + 1 >= self.cols {
            let ghost start = self@;
            self.cursor.col = 0;
            assert(self@ =~= start.with_col(0));
            self.linefeed();
        }
        let col: usize = self.cursor.col;
        self.mark_line_dirty(col);
        self.write_cell(ch, width);
        self.advance(width);
    }

    /// Writes a character into the cell under the cursor.
    fn write_cell(&mut self, ch: char, width: usize)
        requires
            old(self)@.wf(),
        ensures
            final(self)@.wf(),
            final(self)@ == old(self)@.write_cell(ch, width as nat),
    {
        let col: usize = self.cursor.col;
        let cols: usize = self.cols;
        let style: Style = self.current_style;
        let r: usize = self.cursor.row;
        let ghost line = self@.line();
        let row: &mut Vec<Cell> = &mut self.screen[r];
        row[col] = Cell { ch, style, wide_cont: false };
        if width == 2 && col + 1 < cols {
            row[col + 1] = Cell { ch: ' ', style, wide_cont: true };
        }
        assert(self@.line() == old(self)@.write_cell(ch, width as nat).line());
        assert(self@.lines =~= old(self)@.write_cell(ch, width as nat).lines);
    }

    /// Moves past what has been written.
    fn advance(&mut self, width: usize)
        requires
            old(self)@.wf(),
        ensures
            final(self)@.wf(),
            final(self)@ == old(self)@.advance(width as nat),
    {
        if width >= self.cols - self.cursor.col {
            self.cursor.col = self.cols - 1;
            self.wrap_pending = true;
        } else {
            self.cursor.col = self.cursor.col + width;
            self.wrap_pending = false;
        }
        assert(self@ =~= old(self)@.advance(width as nat));
    }

    fn handle_sgr(&mut self, body: &[char])
        requires
            old(self)@.wf(),
        ensures
            final(self)@.wf(),
            final(self)@ == old(self)@.handle_sgr(body@),
    {
        let codes: Vec<Option<u16>> = parse_sgr_codes(body);
        let mut style: Style = self.current_style;
        let ghost start = style;
        let mut index: usize = 0;
        while index < codes.len()
            invariant
                sgr_from(start, codes@, 0) == sgr_from(style, codes@, index as int),
            decreases codes@.len() - index,
        {
            match codes[index] {
                None => {
                    index += 1;
                },
                Some(code) => {
                    if code == 38 || code == 48 {
                        let len: usize = parse_extended_len(&codes, index + 1);
                        match parse_extended_color(&codes, index + 1) {
                            Some(color) => {
                                if code == 38 {
                                    style.fg = Some(color);
                                } else {
                                    style.bg = Some(color);
                                }
                            },
                            None => {},
                        }
                        let ghost next = index + 1 + len;
                        if len >= codes.len() - index {
                            index = codes.len();
                        } else {
                            index = index + 1 + len;
                        }
                        assert(sgr_from(style, codes@, next) == sgr_from(
                            style,
                            codes@,
                            index as int,
                        ));
                    } else {
                        style = apply_sgr(style, code);
                        index += 1;
                    }
                },
            }
        }
        self.current_style = style;
        assert(self@ =~= old(self)@.handle_sgr(body@));
    }

    /// Carries out a control function.
    fn control(&mut self, final_char: char, private: Option<char>, body: &[char])
        requires
            old(self)@.wf(),
        ensures
            final(self)@.wf(),
            final(self)@ == old(self)@.control(final_char, private, body@),
    {
        let params: Vec<Option<usize>> = parse_params(body);
        let count: usize = param_or(&params, 0, 1);
        let ghost start = self@;
        match final_char {
            'A' => self.cursor_up(count),
            'B' => self.cursor_down(count),
            'C' => self.cursor_right(count),
            'D' => self.cursor_left(count),
            'E' => {
                self.cursor_down(count);
                self.set_col(0);
            },
            'F' => {
                self.cursor_up(count);
                self.set_col(0);
            },
            'G' => self.set_col(count - 1),
            'H' | 'f' => {
                let col: usize = param_or(&params, 1, 1);
                self.move_to(count - 1, col - 1);
            },
            'J' => {
                let mode: usize = param_or(&params, 0, 0);
                self.erase_in_display(mode);
            },
            'K' => {
                let mode: usize = param_or(&params, 0, 0);
                self.erase_in_line(mode);
            },
            'L' => self.insert_lines(count),
            'M' => self.delete_lines(count),
            '@' => self.insert_chars(count),
            'P' => self.delete_chars(count),
            'X' => self.erase_chars(count),
            'S' => self.scroll_up(count),
            'T' => self.scroll_down(count),
            'm' => self.handle_sgr(body),
            's' => {
                self.saved_cursor = self.cursor;
                assert(self@ =~= (Screen { saved: start.cursor, ..start }));
            },
            'u' => {
                self.cursor = self.saved_cursor;
                assert(self@ =~= (Screen { cursor: start.saved, ..start }));
            },
            'h' | 'l' => {
                if private == Some('?') && has_param(&params, 2026) {
                    self.sync_active = final_char == 'h';
                    assert(self@ =~= (Screen { sync_active: final_char == 'h', ..start }));
                }
            },
            _ => {},
        }
    }

    fn handle_csi(&mut self, seq: &[char])
        requires
            old(self)@.wf(),
        ensures
            final(self)@.wf(),
            final(self)@ == old(self)@.handle_csi(seq@),
    {
        if !valid_csi(seq) {
            return;
        }
        let end: usize = seq.len() - 1;
        let final_char: char = seq[end];
        let mut private: Option<char> = None;
        let mut start: usize = 0;
        if end > 0 && (seq[0] == '<' || seq[0] == '=' || seq[0] == '>' || seq[0] == '?') {
            private = Some(seq[0]);
            start = 1;
        }
        let body: &[char] = vstd::slice::slice_subrange(seq, start, end);
        assert(body@ =~= csi_body(seq@));
        if should_cancel_wrap(final_char) {
            self.cancel_wrap_pending();
        }
        self.control(final_char, private, body);
    }

    fn feed_normal(&mut self, ch: char)
        requires
            old(self)@.wf(),
        ensures
            final(self)@.wf(),
            final(self)@ == old(self)@.feed_normal(ch),
    {
        let ord: u32 = ch as u32;
        if ch == '\x1b' {
            self.set_state(ParseState::Esc);
        } else if ch == '\r' {
            self.cancel_wrap_pending();
            self.set_col(0);
        } else if ch == '\n' {
            self.cancel_wrap_pending();
            self.linefeed();
        } else if ch == '\x08' {
            self.cancel_wrap_pending();
            self.cursor_left(1);
        } else if ch == '\t' {
            self.cancel_wrap_pending();
            self.tab();
        } else if ord < 32 || ord == 127 {
        } else {
            self.put_char(ch);
        }
    }

    fn set_state(&mut self, state: ParseState)
        requires
            old(self)@.wf(),
        ensures
            final(self)@.wf(),
            final(self)@ == old(self)@.with_state(state),
    {
        self.state = state;
        assert(self@ =~= old(self)@.with_state(state));
    }

    fn feed_esc(&mut self, ch: char)
        requires
            old(self)@.wf(),
        ensures
            final(self)@.wf(),
            final(self)@ == old(self)@.feed_esc(ch),
    {
        match ch {
            '[' => {
                self.csi.clear();
                self.state = ParseState::Csi;
                assert(self@ =~= old(self)@.feed_esc(ch));
            },
            ']' => {
                self.osc.clear();
                self.osc_escape = false;
                self.state = ParseState::Osc;
                assert(self@ =~= old(self)@.feed_esc(ch));
            },
            '(' | ')' | '*' | '+' => self.set_state(ParseState::Charset),
            '7' => {
                self.saved_cursor = self.cursor;
                self.state = ParseState::Normal;
                assert(self@ =~= old(self)@.feed_esc(ch));
            },
            '8' => {
                self.cancel_wrap_pending();
                self.cursor = self.saved_cursor;
                self.state = ParseState::Normal;
                assert(self@ =~= old(self)@.feed_esc(ch));
            },
            'c' => self.reset(true),
            'D' => {
                self.set_state(ParseState::Normal);
                self.cancel_wrap_pending();
                self.linefeed();
            },
            'E' => {
                self.set_state(ParseState::Normal);
                self.cancel_wrap_pending();
                self.set_col(0);
                self.linefeed();
            },
            'M' => {
                self.set_state(ParseState::Normal);
                self.cancel_wrap_pending();
                self.reverse_index();
            },
            _ => {
                if is_final_char(ch) {
                    self.set_state(ParseState::Normal);
                } else {
                    self.esc_other.clear();
                    self.esc_other.push(ch);
                    self.state = ParseState::EscOther;
                    assert(self@ =~= old(self)@.feed_esc(ch));
                }
            },
        }
    }

    fn feed_esc_other(&mut self, ch: char)
        requires
            old(self)@.wf(),
        ensures
            final(self)@.wf(),
            final(self)@ == old(self)@.feed_esc_other(ch),
    {
        self.esc_other.push(ch);
        if is_final_char(ch) {
            self.state = ParseState::Normal;
        }
        assert(self@ =~= old(self)@.feed_esc_other(ch));
    }

    fn feed_osc(&mut self, ch: char)
        requires
            old(self)@.wf(),
        ensures
            final(self)@.wf(),
            final(self)@ == old(self)@.feed_osc(ch),
    {
        if self.osc_escape {
            self.osc_escape = false;
            if ch == '\\' {
                self.state = ParseState::Normal;
            } else {
                self.osc.push('\x1b');
                self.osc.push(ch);
            }
        } else if ch == '\x07' {
            self.state = ParseState::Normal;
        } else if ch == '\x1b' {
            self.osc_escape = true;
        } else {
            self.osc.push(ch);
        }
        assert(self@ =~= old(self)@.feed_osc(ch));
    }

    fn feed_csi(&mut self, ch: char)
        requires
            old(self)@.wf(),
        ensures
            final(self)@.wf(),
            final(self)@ == old(self)@.feed_csi(ch),
    {
        self.csi.push(ch);
        if is_final_char(ch) {
            let mut seq: Vec<char> = Vec::new();
            std::mem::swap(&mut seq, &mut self.csi);
            self.state = ParseState::Normal;
            assert(self@ =~= (Screen {
                csi: Seq::empty(),
                state: ParseState::Normal,
                ..old(self)@
            }));
            self.handle_csi(seq.as_slice());
        }
        assert(self@ =~= old(self)@.feed_csi(ch));
    }

    fn feed_char(&mut self, ch: char)
        requires
            old(self)@.wf(),
        ensures
            final(self)@.wf(),
            final(self)@ == old(self)@.feed_char(ch),
    {
        proof {
            reveal(Screen::feed_char);
        }
        match self.state {
            ParseState::Normal => self.feed_normal(ch),
            ParseState::Esc => self.feed_esc(ch),
            ParseState::Csi => self.feed_csi(ch),
            ParseState::Osc => self.feed_osc(ch),
            ParseState::EscOther => self.feed_esc_other(ch),
            ParseState::Charset => self.set_state(ParseState::Normal),
        }
    }

    /// Takes in terminal output.
    pub fn feed(&mut self, text: &str)
        requires
            old(self)@.wf(),
        ensures
            final(self)@.wf(),
            final(self)@ == old(self)@.feed(text@),
    {
        let ghost start = self@;
        assert(text@.take(0) =~= Seq::<char>::empty());
        for ch in it: text.chars()
            invariant
                self@.wf(),
                it.seq() == text@,
                self@ == start.feed(text@.take(it.index() as int)),
        {
            proof {
                let i = it.index() as int;
                assert(text@.take(i + 1).drop_last() =~= text@.take(i));
                assert(text@.take(i + 1).last() == ch);
            }
            self.feed_char(ch);
        }
        assert(text@.take(text@.len() as int) =~= text@);
    }

    /// Cuts or fills up all rows, and retires or adds rows on the screen.
    fn resize_rows(&mut self, new_rows: usize, new_cols: usize)
        requires
            old(self)@.wf(),
            new_rows >= 1,
            new_cols >= 1,
            new_rows != old(self)@.rows || new_cols != old(self)@.cols,
        ensures
            ({
                let resized = old(self)@.resize(new_rows as nat, new_cols as nat);
                final(self)@ == Screen {
                    rows: new_rows as nat,
                    cols: new_cols as nat,
                    history: resized.history,
                    lines: resized.lines,
                    ..old(self)@
                }
            }),
    {
        proof {
            reveal(Screen::resize);
        }
        let ghost start = self@;
        fit_rows(&mut self.history, new_cols, Style::default());
        let style: Style = self.current_style;
        fit_rows(&mut self.screen, new_cols, style);
        let ghost history = grid(self.history@);
        let ghost lines = grid(self.screen@);
        assert(history =~= Seq::new(
            start.history.len(),
            |i: int| fitted_row(start.history[i], new_cols as nat, plain_style()),
        ));
        assert(lines =~= Seq::new(
            start.lines.len(),
            |i: int| fitted_row(start.lines[i], new_cols as nat, start.style),
        ));
        let gone: usize = if self.screen.len() > new_rows {
            self.screen.len() - new_rows
        } else {
            0
        };
        retire_rows(&mut self.history, &mut self.screen, gone);
        let ghost kept = lines.skip(gone as int);
        self.rows = new_rows;
        self.cols = new_cols;
        let mut extra: Vec<Vec<Cell>> = make_blank_rows(new_rows - self.screen.len(), new_cols, style);
        let ghost added = extra@;
        self.screen.append(&mut extra);
        assert(forall|k: int| 0 <= k < added.len() ==> (#[trigger] added[k])@ == grid(added)[k]);
        assert(grid(self.screen@) =~= kept + grid(added));
    }

    /// Changes the size, to at least one row and one column. Rows are cut or filled up; what
    /// no longer fits goes into the history.
    #[verifier::rlimit(40)]
    pub fn resize(&mut self, rows: usize, cols: usize)
        requires
            old(self)@.wf(),
        ensures
            final(self)@.wf(),
            final(self)@ == old(self)@.resize(rows as nat, cols as nat),
    {
        proof {
            reveal(Screen::resize);
        }
        let new_rows: usize = if rows == 0 {
            1
        } else {
            rows
        };
        let new_cols: usize = if cols == 0 {
            1
        } else {
            cols
        };
        if self.rows == new_rows && self.cols == new_cols {
            return;
        }
        let ghost start = self@;
        self.resize_rows(new_rows, new_cols);
        let last_row: usize = new_rows - 1;
        let last_col: usize = new_cols - 1;
        if self.cursor.row > last_row {
            self.cursor.row = last_row;
        }
        if self.saved_cursor.row > last_row {
            self.saved_cursor.row = last_row;
        }
        if self.wrap_pending {
            self.cursor.col += 1;
        }
        if self.cursor.col > last_col {
            self.cursor.col = last_col;
        }
        if self.saved_cursor.col > last_col {
            self.saved_cursor.col = last_col;
        }
        self.wrap_pending = false;
        self.line_dirty_min_col = None;
        assert(self@ =~= start.resize(rows as nat, cols as nat));
        proof {
            resize_keeps_validity(start, rows as nat, cols as nat);
        }
    }
}

/// Moves the first `count` rows of the screen into the history.
fn retire_rows(history: &mut Vec<Vec<Cell>>, screen: &mut Vec<Vec<Cell>>, count: usize)
    requires
        count <= old(screen)@.len(),
    ensures
        grid(final(history)@) == grid(old(history)@) + trimmed_rows(
            grid(old(screen)@).take(count as int),
        ),
        grid(final(screen)@) == grid(old(screen)@).skip(count as int),
{
    let ghost above = grid(history@);
    let ghost lines = grid(screen@);
    let mut done: usize = 0;
    while done < count
        invariant
            done <= count <= lines.len(),
            grid(screen@) == lines.skip(done as int),
            grid(history@) == above + trimmed_rows(lines.take(done as int)),
        decreases count - done,
    {
        let ghost before = grid(history@);
        let ghost below = grid(screen@);
        assert(below.len() == lines.len() - done);
        let first: Vec<Cell> = screen.remove(0);
        history.push(trim_row(first.as_slice()));
        proof {
            assert(grid(screen@) =~= below.skip(1));
            assert(below.skip(1) =~= lines.skip(done + 1));
            assert(below[0] == lines[done as int]);
            assert(grid(history@) =~= before.push(trimmed_row(below[0])));
            assert(grid(history@) =~= above + trimmed_rows(lines.take(done + 1)));
        }
        done += 1;
    }
}

/// Cuts or fills up every row.
fn fit_rows(rows: &mut Vec<Vec<Cell>>, cols: usize, style: Style)
    ensures
        grid(final(rows)@) == Seq::new(
            old(rows)@.len(),
            |i: int| fitted_row(grid(old(rows)@)[i], cols as nat, style),
        ),
{
    let ghost start = rows@;
    let mut i: usize = 0;
    while i < rows.len()
        invariant
            i <= rows@.len(),
            rows@.len() == start.len(),
            forall|k: int|
                0 <= k < rows@.len() ==> (#[trigger] rows@[k])@ == (if k < i {
                    fitted_row(start[k]@, cols as nat, style)
                } else {
                    start[k]@
                }),
        decreases rows@.len() - i,
    {
        normalize_row_width(&mut rows[i], cols, style);
        i += 1;
    }
    assert(grid(rows@) =~= Seq::new(
        start.len(),
        |i: int| fitted_row(grid(start)[i], cols as nat, style),
    ));
}

fn is_final_char(ch: char) -> (r: bool)
    ensures
        r == is_final(ch),
{
    '@' <= ch && ch <= '~'
}

fn valid_csi(seq: &[char]) -> (r: bool)
    ensures
        r == well_formed_csi(seq@),
{
    if seq.len() == 0 {
        return false;
    }
    let end: usize = seq.len() - 1;
    if !is_final_char(seq[end]) {
        return false;
    }
    let mut i: usize = 0;
    while i < end
        invariant
            i <= end,
            end == seq@.len() - 1,
            forall|k: int| 0 <= k < i ==> ' ' <= #[trigger] seq@[k] <= '?',
        decreases end - i,
    {
        if seq[i] < ' ' || seq[i] > '?' {
            return false;
        }
        i += 1;
    }
    true
}

fn should_cancel_wrap(final_char: char) -> (r: bool)
    ensures
        r == cancels_wrap(final_char),
{
    match final_char {
        'A' | 'B' | 'C' | 'D' | 'E' | 'F' | 'G' | 'H' | 'f' | 'J' | 'K' | 'L' | 'M' | '@' | 'P'
        | 'X' | 'S' | 'T' | 's' | 'u' => true,
        _ => false,
    }
}

fn parse_param(part: &[char]) -> (r: Option<usize>)
    ensures
        match r {
            Some(value) => csi_number(part@) == Some(value as nat),
            None => csi_number(part@) is None,
        },
{
    let number: Vec<char> = before_text(part, ':');
    match parse_unsigned(number.as_slice(), usize::MAX as u64) {
        Some(value) => Some(value as usize),
        None => None,
    }
}

/// The views of some numeric parameters.
spec fn numbers(params: Seq<Option<usize>>) -> Seq<Option<nat>> {
    Seq::new(
        params.len(),
        |i: int|
            match params[i] {
                Some(value) => Some(value as nat),
                None => None,
            },
    )
}

fn parse_params(body: &[char]) -> (r: Vec<Option<usize>>)
    ensures
        numbers(r@) == csi_numbers(body@),
{
    let parts: Vec<Vec<char>> = split_text(body, ';');
    let mut out: Vec<Option<usize>> = Vec::new();
    let mut i: usize = 0;
    while i < parts.len()
        invariant
            i <= parts@.len(),
            out@.len() == i,
            texts(parts@) == split(body@, ';'),
            forall|k: int| 0 <= k < i ==> numbers(out@)[k] == csi_number(#[trigger] parts@[k]@),
        decreases parts@.len() - i,
    {
        out.push(parse_param(parts[i].as_slice()));
        i += 1;
    }
    assert(numbers(out@) =~= csi_numbers(body@));
    out
}

fn param_or(params: &Vec<Option<usize>>, index: usize, default: usize) -> (r: usize)
    ensures
        r == param(numbers(params@), index as int, default as nat),
        default > 0 ==> r > 0,
{
    if index < params.len() {
        match params[index] {
            Some(value) => if value == 0 {
                default
            } else {
                value
            },
            None => default,
        }
    } else {
        default
    }
}

fn has_param(params: &Vec<Option<usize>>, wanted: usize) -> (r: bool)
    ensures
        r == numbers(params@).contains(Some(wanted as nat)),
{
    let mut i: usize = 0;
    while i < params.len()
        invariant
            i <= params@.len(),
            forall|k: int| 0 <= k < i ==> numbers(params@)[k] != Some(wanted as nat),
        decreases params@.len() - i,
    {
        match params[i] {
            Some(value) => {
                if value == wanted {
                    assert(numbers(params@)[i as int] == Some(wanted as nat));
                    return true;
                }
            },
            None => {},
        }
        i += 1;
    }
    false
}

fn parse_sgr_int(part: &[char]) -> (r: Option<u16>)
    ensures
        r == sgr_code(part@),
{
    let number: Vec<char> = before_text(part, ':');
    if number.len() == 0 {
        return Some(0);
    }
    match parse_unsigned(number.as_slice(), u16::MAX as u64) {
        Some(value) => Some(value as u16),
        None => None,
    }
}

fn parse_sgr_codes(body: &[char]) -> (r: Vec<Option<u16>>)
    ensures
        r@ == sgr_codes(body@),
{
    let parts: Vec<Vec<char>> = split_text(body, ';');
    let mut out: Vec<Option<u16>> = Vec::new();
    let mut i: usize = 0;
    while i < parts.len()
        invariant
            i <= parts@.len(),
            out@.len() == i,
            texts(parts@) == split(body@, ';'),
            forall|k: int| 0 <= k < i ==> out@[k] == sgr_code(#[trigger] parts@[k]@),
        decreases parts@.len() - i,
    {
        out.push(parse_sgr_int(parts[i].as_slice()));
        i += 1;
    }
    assert(out@ =~= sgr_codes(body@));
    out
}

fn parse_code_at(codes: &Vec<Option<u16>>, index: usize) -> (r: Option<u16>)
    ensures
        r == code_at(codes@, index as int),
{
    if index < codes.len() {
        codes[index]
    } else {
        None
    }
}

fn parse_extended_len(codes: &Vec<Option<u16>>, index: usize) -> (r: usize)
    ensures
        r == extended_len(codes@, index as int),
{
    match parse_code_at(codes, index) {
        Some(5) => 2,
        Some(2) => 4,
        _ => 1,
    }
}

fn truncate_code(value: u16) -> (r: u8)
    ensures
        r == low_byte(value),
{
    (value % 256) as u8
}

fn parse_extended_color(codes: &Vec<Option<u16>>, index: usize) -> (r: Option<u8>)
    requires
        index <= codes@.len(),
    ensures
        r == extended_color(codes@, index as int),
{
    let total: usize = codes.len();
    match parse_code_at(codes, index) {
        Some(5) => match parse_code_at(codes, index + 1) {
            Some(value) => Some(truncate_code(value)),
            None => None,
        },
        Some(2) => {
            if total - index < 4 {
                return None;
            }
            match (codes[index + 1], codes[index + 2], codes[index + 3]) {
                (Some(r), Some(g), Some(b)) => Some(
                    rgb_to_xterm256(truncate_code(r), truncate_code(g), truncate_code(b)),
                ),
                _ => None,
            }
        },
        _ => None,
    }
}

fn apply_sgr(style: Style, code: u16) -> (r: Style)
    ensures
        r == sgr_style(style, code),
{
    let mut out: Style = style;
    if code == 0 {
        out = Style::default();
    } else if code == 1 {
        out.bold = true;
    } else if code == 2 {
        out.dim = true;
    } else if code == 22 {
        out.bold = false;
        out.dim = false;
    } else if code == 7 {
        out.reverse = true;
    } else if code == 27 {
        out.reverse = false;
    } else if 30 <= code && code <= 37 {
        out.fg = Some((code - 30) as u8);
    } else if code == 39 {
        out.fg = None;
    } else if 40 <= code && code <= 47 {
        out.bg = Some((code - 40) as u8);
    } else if code == 49 {
        out.bg = None;
    } else if 90 <= code && code <= 97 {
        out.fg = Some((code - 82) as u8);
    } else if 100 <= code && code <= 107 {
        out.bg = Some((code - 92) as u8);
    }
    out
}

/// The entry of the 256-colour palette that stands for a colour.
pub fn rgb_to_xterm256(r: u8, g: u8, b: u8) -> (entry: u8)
    ensures
        entry == palette_entry(r, g, b),
{
    if r == g && g == b {
        if r < 8 {
            return 16;
        }
        if r > 248 {
            return 231;
        }
        let level: u32 = (48 * (r as u32 - 8) + 247) / 494;
        return (232 + level) as u8;
    }
    let red: u32 = (2 * r as u32 + 51) / 102;
    let green: u32 = (2 * g as u32 + 51) / 102;
    let blue: u32 = (2 * b as u32 + 51) / 102;
    (16 + 36 * red + 6 * green + blue) as u8
}

/// The value if it lies between the bounds, otherwise the nearer one; the upper bound
/// wins where they cross.
pub fn clamp(value: usize, lower: usize, upper: usize) -> (r: usize)
    ensures
        r == clamped(value as int, lower as int, upper as int),
{
    let raised: usize = if value < lower {
        lower
    } else {
        value
    };
    if raised > upper {
        upper
    } else {
        raised
    }
}

/// The value if it lies between the bounds, otherwise the nearer one; the upper bound
/// wins where they cross.
pub fn clamp_signed(value: isize, lower: isize, upper: isize) -> (r: isize)
    ensures
        r == clamped(value as int, lower as int, upper as int),
{
    let raised: isize = if value < lower {
        lower
    } else {
        value
    };
    if raised > upper {
        upper
    } else {
        raised
    }
}

/// The value if it lies between the bounds, otherwise the nearer one; the upper bound
/// wins where they cross.
pub open spec fn clamped(value: int, lower: int, upper: int) -> int {
    if upper < lower || value > upper {
        upper
    } else if value < lower {
        lower
    } else {
        value
    }
}

proof fn lemma_scroll_up_step(s: Screen, n: nat)
    requires
        s.wf(),
    ensures
        s.scroll_up(n).scroll_up(1) == s.scroll_up(n + 1),
{
    assert(s.scroll_up(n).scroll_up(1).history =~= s.scroll_up(n + 1).history);
    assert(s.scroll_up(n).scroll_up(1).lines =~= s.scroll_up(n + 1).lines);
}

/// Clamping gives a value between the bounds, and the value itself if it is between them
/// already; otherwise the bound that it is beyond.
pub proof fn clamping_keeps_between_the_bounds(value: int, lower: int, upper: int)
    requires
        lower <= upper,
    ensures
        lower <= clamped(value, lower, upper) <= upper,
        lower <= value <= upper ==> clamped(value, lower, upper) == value,
        value < lower ==> clamped(value, lower, upper) == lower,
        value > upper ==> clamped(value, lower, upper) == upper,
{
}

} // verus!
