//! The split view: a log viewer on the left, a running program on the right.

use crate::cell::{grid, row_to_text, Cell, Style};
use crate::commands::{
    left_binding, left_command, selection_binding, selection_command, Command, ScreenPosition,
};
use crate::keys::{encode_key, Key, KeyCode, Prompt};
use crate::render::{
    clear_segment, draw_cells, ops, overlay_cells, push_op, push_ops, to_display, DrawOp, Op,
};
use crate::replay::{LogUpdate, Recording, ReplayFile};
use crate::selection::{
    answers, apply_selection_highlight, first_selectable_col, last_selectable_col, move_word_point,
    next_col, normalize_col, previous_col, row_of, row_view, selected_text, selection_text,
    word_target, Selection, SelectionMode, SelectionPoint, WordMotion,
};
use crate::split_model::{
    frame_ops, frame_row_ops, help_text, laid_over, last_text_row, mode_label, origin, pane_name,
    plural, point, prompt_ops, screen_table, segment_ops, signed, status_cell, status_cells,
    with_cursor_shown, Act, ActiveSelection, Focus, Frame, Program, Split, SplitDims,
};
use crate::terminal::{clamped, VirtualTerminal};
use crate::text::{chars_of, decimal, fit_text, push_chars, push_decimal};
use crate::utf8::{decode_utf8_chunk, decoded_chunk};
use crate::viewer::{half_height, height, Viewer, ViewerCore};
use vstd::prelude::*;

verus! {

/// Divides a display of the given size, of at least three columns and one row.
pub fn split_dims(width: u16, height: u16) -> (r: SplitDims)
    ensures
        r.wf(),
        r.rows == (if height == 0 {
            1
        } else {
            height as int
        }),
        ({
            let columns = if width < 3 {
                3
            } else {
                width as int
            };
            &&& r.left_cols == columns / 2
            &&& r.width() == columns
        }),
{
    let columns: usize = if width < 3 {
        3
    } else {
        width as usize
    };
    let rows: usize = if height == 0 {
        1
    } else {
        height as usize
    };
    let left_cols: usize = columns / 2;
    SplitDims {
        rows,
        left_cols,
        right_cols: columns - left_cols - 1,
        separator_col: left_cols,
    }
}

// The program on the right
// ------------------------

/// What comes from the program.
#[derive(Debug)]
pub enum PaneMsg {
    Data(Vec<u8>),
    Eof,
}

/// The program in the right pane, as far as it is shown.
#[derive(Debug)]
pub struct Pane {
    pub(crate) term: VirtualTerminal,
    pub(crate) pending_utf8: Vec<u8>,
    pub(crate) alive: bool,
}

impl View for Pane {
    type V = Program;

    open(crate) spec fn view(&self) -> Program {
        Program { screen: self.term@, pending: self.pending_utf8@, alive: self.alive }
    }
}

impl Pane {
    /// A program that has just been started on a terminal of the given size.
    pub fn new(rows: usize, cols: usize) -> (r: Self)
        ensures
            r@.screen.wf(),
            r@.screen == crate::screen::Screen::initial(
                if rows == 0 {
                    1
                } else {
                    rows as nat
                },
                if cols == 0 {
                    1
                } else {
                    cols as nat
                },
                Seq::empty(),
            ),
            r@.pending.len() == 0,
            r@.alive,
    {
        Pane { term: VirtualTerminal::new(rows, cols), pending_utf8: Vec::new(), alive: true }
    }

    /// The terminal that the program runs on.
    pub fn term(&self) -> (r: &VirtualTerminal)
        ensures
            r@ == self@.screen,
    {
        &self.term
    }

    /// Whether the program is running.
    pub fn alive(&self) -> (r: bool)
        ensures
            r == self@.alive,
    {
        self.alive
    }

    /// Takes in what comes from the program. Returns whether that changed what is shown.
    pub fn handle_msg(&mut self, msg: PaneMsg) -> (r: bool)
        requires
            old(self)@.screen.wf(),
        ensures
            final(self)@.screen.wf(),
            match msg {
                PaneMsg::Data(bytes) => {
                    &&& final(self)@ == old(self)@.wrote(bytes@)
                    &&& r == (decoded_chunk(old(self)@.pending, bytes@, false).text.len() > 0)
                },
                PaneMsg::Eof => {
                    &&& final(self)@ == old(self)@.ended()
                    &&& r == (decoded_chunk(old(self)@.pending, Seq::empty(), true).text.len() > 0)
                },
            },
    {
        match msg {
            PaneMsg::Data(bytes) => {
                let text: String = decode_utf8_chunk(
                    &mut self.pending_utf8,
                    bytes.as_slice(),
                    false,
                );
                self.term.feed(text.as_str());
                assert(self@ =~= old(self)@.wrote(bytes@));
                !text.as_str().is_empty()
            },
            PaneMsg::Eof => {
                let none: Vec<u8> = Vec::new();
                let tail: String = decode_utf8_chunk(
                    &mut self.pending_utf8,
                    none.as_slice(),
                    true,
                );
                assert(none@ =~= Seq::<u8>::empty());
                self.term.feed(tail.as_str());
                self.alive = false;
                assert(self@ =~= old(self)@.ended());
                !tail.as_str().is_empty()
            },
        }
    }

    /// Whether the program has ended; `ended` tells whether it was found to have ended now.
    pub fn exited(&mut self, ended: bool) -> (r: bool)
        ensures
            final(self)@ == (Program { alive: old(self)@.alive && !ended, ..old(self)@ }),
            r == !final(self)@.alive,
    {
        if ended {
            self.alive = false;
        }
        !self.alive
    }

    /// Takes in a new size of the pane.
    pub fn resize(&mut self, rows: usize, cols: usize)
        requires
            old(self)@.screen.wf(),
        ensures
            final(self)@.screen.wf(),
            final(self)@ == (Program {
                screen: old(self)@.screen.resize(rows as nat, cols as nat),
                ..old(self)@
            }),
    {
        self.term.resize(rows, cols);
        assert(self@ =~= (Program {
            screen: old(self)@.screen.resize(rows as nat, cols as nat),
            ..old(self)@
        }));
    }

    /// A row of the screen; rows beyond the end are empty.
    fn row_cells(&self, index: usize) -> (r: Vec<Cell>)
        ensures
            r@ == (if index < self@.screen.lines.len() {
                self@.screen.lines[index as int]
            } else {
                Seq::empty()
            }),
    {
        match self.screen_row(index) {
            Some(cells) => cells,
            None => {
                let none: Vec<Cell> = Vec::new();
                assert(none@ =~= Seq::<Cell>::empty());
                none
            },
        }
    }

    fn screen_row(&self, index: usize) -> (r: Option<Vec<Cell>>)
        ensures
            row_view(r) == row_of(screen_table(self@.screen.lines), index as int),
    {
        let rows: &[Vec<Cell>] = self.term.screen_rows();
        if index < rows.len() {
            let cells: Vec<Cell> = vstd::slice::slice_to_vec(rows[index].as_slice());
            assert(cells@ == grid(rows@)[index as int]);
            Some(cells)
        } else {
            None
        }
    }

    /// Moves by words over the rows of the screen.
    fn word_from(&self, start: SelectionPoint, motion: WordMotion) -> (r: SelectionPoint)
        ensures
            r == word_target(
                screen_table(self@.screen.lines),
                self@.screen.lines.len() as int,
                start,
                motion,
            ),
            r == start || r.row < self@.screen.lines.len(),
    {
        let row_at = |row: usize| -> (cells: Option<Vec<Cell>>)
            ensures
                row_view(cells) == row_of(screen_table(self@.screen.lines), row as int),
            { self.screen_row(row) };
        let count: usize = self.term.screen_rows().len();
        let ghost table = screen_table(self@.screen.lines);
        assert(answers(row_at, table, 0, count as int));
        move_word_point(start, count, row_at, motion)
    }

    /// The text that is selected on the screen.
    fn selected_text(&self, selection: Selection) -> (r: String)
        ensures
            r@ == selected_text(selection, screen_table(self@.screen.lines)),
    {
        let row_at = |row: usize| -> (cells: Option<Vec<Cell>>)
            ensures
                row_view(cells) == row_of(screen_table(self@.screen.lines), row as int),
            { self.screen_row(row) };
        let ghost table = screen_table(self@.screen.lines);
        assert(answers(
            row_at,
            table,
            selection.start().row as int,
            selection.end().row + 1,
        ));
        selection_text(selection, row_at)
    }
}

// The state
// ---------

/// What has been drawn.
#[derive(Debug)]
pub struct FrameSnapshot {
    pub width: u16,
    pub height: u16,
    pub separator_col: usize,
    pub rows: Vec<Vec<Cell>>,
}

impl View for FrameSnapshot {
    type V = Frame;

    open spec fn view(&self) -> Frame {
        Frame {
            width: self.width as nat,
            height: self.height as nat,
            separator: self.separator_col as nat,
            rows: grid(self.rows@),
        }
    }
}

/// The view of a frame, if there is one.
pub open spec fn frame_view(frame: Option<FrameSnapshot>) -> Option<Frame> {
    match frame {
        Some(drawn) => Some(drawn@),
        None => None,
    }
}

/// What has to be done outside after a key.
#[derive(Debug)]
pub enum Action {
    Continue,
    Quit,
    /// Let a search text be typed.
    Prompt,
    /// Put a text into the clipboard.
    Copy(String),
    /// Get the clipboard's text.
    Paste,
    /// Send bytes to the program.
    Send(Vec<u8>),
    /// Read the log again.
    Reload,
}

impl View for Action {
    type V = Act;

    open spec fn view(&self) -> Act {
        match self {
            Action::Continue => Act::Continue,
            Action::Quit => Act::Quit,
            Action::Prompt => Act::Prompt,
            Action::Copy(text) => Act::Copy(text@),
            Action::Paste => Act::Paste,
            Action::Send(bytes) => Act::Send(bytes@),
            Action::Reload => Act::Reload,
        }
    }
}

/// The split view.
#[derive(Debug)]
pub struct SplitView {
    pub(crate) left: ViewerCore,
    pub(crate) right: Pane,
    pub(crate) focus: Focus,
    /// Whether the next key asks for an action in either pane.
    pub(crate) prefix_pending: bool,
    /// Whether the next key chooses a pane.
    pub(crate) switch_prefix_pending: bool,
    pub(crate) left_cursor: SelectionPoint,
    pub(crate) selection: Option<ActiveSelection>,
    pub(crate) previous_frame: Option<FrameSnapshot>,
}

impl View for SplitView {
    type V = Split;

    open(crate) spec fn view(&self) -> Split {
        Split {
            left: self.left@,
            right: self.right@,
            focus: self.focus,
            prefix_pending: self.prefix_pending,
            switch_prefix_pending: self.switch_prefix_pending,
            cursor: self.left_cursor,
            selection: self.selection,
            frame: frame_view(self.previous_frame),
        }
    }
}

/// A row moved by some steps, between the first and the last.
pub(crate) fn stepped(row: usize, forward: bool, step: usize, last: usize) -> (r: usize)
    ensures
        r == clamped(row + signed(forward, step as nat), 0, last as int),
        r <= last,
{
    if forward {
        if row >= last || step >= last - row {
            last
        } else {
            row + step
        }
    } else {
        let moved: usize = if step >= row {
            0
        } else {
            row - step
        };
        if moved > last {
            last
        } else {
            moved
        }
    }
}

impl SplitView {
    /// A split view of a log and a program, with the focus on the program. The log is shown
    /// from its end.
    pub fn new(left: ViewerCore, right: Pane, dims: &SplitDims) -> (r: Self)
        requires
            left@.wf(),
            right@.screen.wf(),
            dims.wf(),
        ensures
            r@.wf(),
            ({
                let at_end = left@.at_end(dims.rows as nat, dims.left_cols as nat);
                let start = Split {
                    left: at_end,
                    right: right@,
                    focus: Focus::Right,
                    prefix_pending: false,
                    switch_prefix_pending: false,
                    cursor: origin(),
                    selection: None,
                    frame: None,
                }.laid(*dims);
                r@ == start.with_cursor(start.default_cursor(*dims))
            }),
    {
        let mut view = SplitView {
            left,
            right,
            focus: Focus::Right,
            prefix_pending: false,
            switch_prefix_pending: false,
            left_cursor: SelectionPoint { row: 0, col: 0 },
            selection: None,
            previous_frame: None,
        };
        view.left.jump_to_end(dims.rows, dims.left_cols);
        view.lay_out(dims);
        let cursor: SelectionPoint = view.default_left_cursor(dims);
        view.set_cursor(cursor);
        view
    }

    /// The viewer on the left.
    pub fn left(&self) -> (r: &ViewerCore)
        ensures
            r@ == self@.left,
    {
        &self.left
    }

    /// The program on the right.
    pub fn right(&self) -> (r: &Pane)
        ensures
            r@ == self@.right,
    {
        &self.right
    }

    /// The pane with the focus.
    pub fn focus(&self) -> (r: Focus)
        ensures
            r == self@.focus,
    {
        self.focus
    }

    /// Whether the next key asks for an action in either pane.
    pub fn prefix_pending(&self) -> (r: bool)
        ensures
            r == self@.prefix_pending,
    {
        self.prefix_pending
    }

    /// Whether the next key chooses a pane.
    pub fn switch_prefix_pending(&self) -> (r: bool)
        ensures
            r == self@.switch_prefix_pending,
    {
        self.switch_prefix_pending
    }

    /// The cursor in the log.
    pub fn left_cursor(&self) -> (r: SelectionPoint)
        ensures
            r == self@.cursor,
    {
        self.left_cursor
    }

    /// What is selected.
    pub fn selection(&self) -> (r: Option<ActiveSelection>)
        ensures
            r == self@.selection,
    {
        self.selection
    }

    /// What has been drawn.
    pub fn previous_frame(&self) -> (r: &Option<FrameSnapshot>)
        ensures
            frame_view(*r) == self@.frame,
    {
        &self.previous_frame
    }

    /// Takes in what comes from the program. Returns whether that changed what is shown.
    pub fn handle_msg(&mut self, msg: PaneMsg) -> (r: bool)
        requires
            old(self)@.wf(),
        ensures
            final(self)@.wf(),
            match msg {
                PaneMsg::Data(bytes) => {
                    &&& final(self)@ == (Split {
                        right: old(self)@.right.wrote(bytes@),
                        ..old(self)@
                    })
                    &&& r == (decoded_chunk(old(self)@.right.pending, bytes@, false).text.len() > 0)
                },
                PaneMsg::Eof => {
                    &&& final(self)@ == (Split { right: old(self)@.right.ended(), ..old(self)@ })
                    &&& r == (decoded_chunk(
                        old(self)@.right.pending,
                        Seq::empty(),
                        true,
                    ).text.len() > 0)
                },
            },
    {
        let changed: bool = self.right.handle_msg(msg);
        assert(self@ =~= (Split { right: self@.right, ..old(self)@ }));
        changed
    }

    /// Whether the program has ended; `ended` tells whether it was found to have ended now.
    pub fn exited(&mut self, ended: bool) -> (r: bool)
        requires
            old(self)@.wf(),
        ensures
            final(self)@.wf(),
            final(self)@ == (Split {
                right: Program { alive: old(self)@.right.alive && !ended, ..old(self)@.right },
                ..old(self)@
            }),
            r == !final(self)@.right.alive,
    {
        let gone: bool = self.right.exited(ended);
        assert(self@ =~= (Split { right: self@.right, ..old(self)@ }));
        gone
    }

    fn lay_out(&mut self, dims: &SplitDims)
        requires
            old(self)@.wf(),
        ensures
            final(self)@.wf(),
            final(self)@ == old(self)@.laid(*dims),
            final(self)@.left.layout is Some,
            final(self)@.count() <= usize::MAX,
    {
        let count: usize = self.left.display_len(dims.left_cols);
        assert(self@ =~= old(self)@.laid(*dims));
    }

    fn count(&self) -> (r: usize)
        requires
            self@.left.layout is Some,
        ensures
            r == self@.count(),
    {
        self.left.display_count()
    }

    fn set_cursor(&mut self, cursor: SelectionPoint)
        requires
            old(self)@.wf(),
            cursor.row < usize::MAX,
        ensures
            final(self)@.wf(),
            final(self)@ == old(self)@.with_cursor(cursor),
    {
        self.left_cursor = cursor;
        assert(self@ =~= old(self)@.with_cursor(cursor));
    }

    fn set_status(&mut self, status: String)
        requires
            old(self)@.wf(),
        ensures
            final(self)@.wf(),
            final(self)@ == old(self)@.with_status(status@),
    {
        self.left.status = status;
        assert(self@ =~= old(self)@.with_status(status@));
    }

    fn clear_status(&mut self)
        requires
            old(self)@.wf(),
        ensures
            final(self)@.wf(),
            final(self)@ == old(self)@.with_status(Seq::empty()),
    {
        let none: String = String::new();
        assert(none@ =~= Seq::<char>::empty());
        self.set_status(none);
    }

    fn unfollow(&mut self)
        requires
            old(self)@.wf(),
        ensures
            final(self)@.wf(),
            final(self)@ == old(self)@.unfollowed(),
    {
        self.left.follow = false;
        assert(self@ =~= old(self)@.unfollowed());
    }

    fn ensure_left_selection_visible(&mut self, dims: &SplitDims, row: usize)
        requires
            old(self)@.wf(),
        ensures
            final(self)@.wf(),
            final(self)@ == old(self)@.showing(*dims, row),
    {
        self.left.show_row(dims.rows, row);
        assert(self@ =~= old(self)@.showing(*dims, row));
    }

    // The cursor on the left
    // ----------------------

    fn default_left_cursor(&self, dims: &SplitDims) -> (r: SelectionPoint)
        requires
            self@.left.layout is Some,
        ensures
            r == self@.default_cursor(*dims),
            r.row < usize::MAX,
    {
        let count: usize = self.count();
        if count == 0 {
            return SelectionPoint { row: 0, col: 0 };
        }
        let end: usize = self.left.view_end(dims.rows);
        let row: usize = self.left.last_filled(self.left.top, end, self.left.top_row());
        let cells: Vec<Cell> = self.left.row_cells(row);
        SelectionPoint { row, col: first_selectable_col(cells.as_slice()) }
    }

    fn normal_cursor(&self) -> (r: SelectionPoint)
        requires
            self@.left.layout is Some,
        ensures
            r == self@.normal_cursor(),
            r.row < usize::MAX,
            self@.count() > 0 ==> r.row < self@.count(),
    {
        let count: usize = self.count();
        if count == 0 {
            return SelectionPoint { row: 0, col: 0 };
        }
        let row: usize = if self.left_cursor.row < count {
            self.left_cursor.row
        } else {
            count - 1
        };
        let cells: Vec<Cell> = self.left.row_cells(row);
        SelectionPoint { row, col: normalize_col(cells.as_slice(), self.left_cursor.col) }
    }

    fn normalize_left_cursor(&mut self, dims: &SplitDims) -> (r: SelectionPoint)
        requires
            old(self)@.wf(),
        ensures
            final(self)@.wf(),
            final(self)@ == old(self)@.normalized(*dims),
            final(self)@.left.layout is Some,
            r == final(self)@.cursor,
    {
        self.lay_out(dims);
        let cursor: SelectionPoint = self.normal_cursor();
        self.set_cursor(cursor);
        cursor
    }

    fn snap_left_cursor_to_end(&mut self, dims: &SplitDims)
        requires
            old(self)@.wf(),
        ensures
            final(self)@.wf(),
            final(self)@ == old(self)@.snapped(*dims),
    {
        self.lay_out(dims);
        let count: usize = self.count();
        if count == 0 {
            self.set_cursor(SelectionPoint { row: 0, col: 0 });
            return;
        }
        let cells: Vec<Cell> = self.left.row_cells(count - 1);
        let col: usize = first_selectable_col(cells.as_slice());
        self.set_cursor(SelectionPoint { row: count - 1, col });
    }

    fn move_left_cursor_row(&mut self, forward: bool, step: usize, dims: &SplitDims)
        requires
            old(self)@.wf(),
        ensures
            final(self)@.wf(),
            final(self)@ == old(self)@.row_moved(signed(forward, step as nat), *dims),
    {
        self.unfollow();
        self.lay_out(dims);
        let count: usize = self.count();
        if count == 0 {
            self.set_cursor(SelectionPoint { row: 0, col: 0 });
            return;
        }
        let cursor: SelectionPoint = self.normal_cursor();
        let row: usize = stepped(cursor.row, forward, step, count - 1);
        let cells: Vec<Cell> = self.left.row_cells(row);
        let col: usize = normalize_col(cells.as_slice(), cursor.col);
        self.set_cursor(SelectionPoint { row, col });
        self.ensure_left_selection_visible(dims, row);
        self.clear_status();
    }

    fn move_left_cursor_col(&mut self, forward: bool, dims: &SplitDims)
        requires
            old(self)@.wf(),
        ensures
            final(self)@.wf(),
            final(self)@ == old(self)@.column_moved(forward, *dims),
    {
        self.unfollow();
        let cursor: SelectionPoint = self.normalize_left_cursor(dims);
        let cells: Vec<Cell> = self.left.row_cells(cursor.row);
        let col: usize = if forward {
            next_col(cells.as_slice(), cursor.col)
        } else {
            previous_col(cells.as_slice(), cursor.col)
        };
        self.set_cursor(SelectionPoint { row: cursor.row, col });
        self.clear_status();
    }

    fn move_left_cursor_line_edge(&mut self, to_end: bool, dims: &SplitDims)
        requires
            old(self)@.wf(),
        ensures
            final(self)@.wf(),
            final(self)@ == old(self)@.line_edge(to_end, *dims),
    {
        self.unfollow();
        let cursor: SelectionPoint = self.normalize_left_cursor(dims);
        let cells: Vec<Cell> = self.left.row_cells(cursor.row);
        let col: usize = if to_end {
            last_selectable_col(cells.as_slice())
        } else {
            0
        };
        self.set_cursor(SelectionPoint { row: cursor.row, col });
        self.clear_status();
    }

    fn move_left_cursor_word(&mut self, motion: WordMotion, dims: &SplitDims)
        requires
            old(self)@.wf(),
        ensures
            final(self)@.wf(),
            final(self)@ == old(self)@.word_moved(motion, *dims),
    {
        self.unfollow();
        self.lay_out(dims);
        if self.count() == 0 {
            self.set_cursor(SelectionPoint { row: 0, col: 0 });
            return;
        }
        let start: SelectionPoint = self.normal_cursor();
        let target: SelectionPoint = self.left.word_from(start, motion);
        self.set_cursor(target);
        self.ensure_left_selection_visible(dims, target.row);
        self.clear_status();
    }

    fn scroll_left_view_preserve_cursor(&mut self, forward: bool, dims: &SplitDims)
        requires
            old(self)@.wf(),
        ensures
            final(self)@.wf(),
            final(self)@ == old(self)@.view_scrolled(signed(forward, 1), *dims),
    {
        self.unfollow();
        self.lay_out(dims);
        if self.count() == 0 {
            self.set_cursor(SelectionPoint { row: 0, col: 0 });
            return;
        }
        let cursor: SelectionPoint = self.normal_cursor();
        let rows: usize = ViewerCore::content_height(dims.rows);
        let last: usize = self.left.last_top(dims.rows);
        let top: usize = stepped(self.left.top, forward, 1, last);
        let row: usize = if cursor.row < top {
            top
        } else if cursor.row - top >= rows {
            top + (rows - 1)
        } else {
            cursor.row
        };
        let cells: Vec<Cell> = self.left.row_cells(row);
        let col: usize = normalize_col(cells.as_slice(), cursor.col);
        let ghost before = self@;
        self.left.set_top(top);
        assert(self@ =~= before.with_left(before.left.with_top(top as nat)));
        self.set_cursor(SelectionPoint { row, col });
        self.clear_status();
    }

    fn position_row(&self, position: ScreenPosition, dims: &SplitDims) -> (r: usize)
        requires
            self@.left.layout is Some,
            self@.left.view_end(dims.rows as nat) > self@.left.top,
        ensures
            r == self@.position_row(position, *dims),
            r < self@.count(),
    {
        let top: usize = self.left.top;
        let end: usize = self.left.view_end(dims.rows);
        match position {
            ScreenPosition::Top => top,
            ScreenPosition::Middle => top + (end - top - 1) / 2,
            ScreenPosition::Bottom => end - 1,
        }
    }

    fn move_left_cursor_screen_position(&mut self, position: ScreenPosition, dims: &SplitDims)
        requires
            old(self)@.wf(),
        ensures
            final(self)@.wf(),
            final(self)@ == old(self)@.screen_moved(position, *dims),
    {
        self.unfollow();
        self.lay_out(dims);
        if self.count() == 0 {
            self.set_cursor(SelectionPoint { row: 0, col: 0 });
            return;
        }
        if self.left.view_end(dims.rows) <= self.left.top {
            return;
        }
        let row: usize = self.position_row(position, dims);
        let cells: Vec<Cell> = self.left.row_cells(row);
        let col: usize = first_selectable_col(cells.as_slice());
        self.set_cursor(SelectionPoint { row, col });
        self.clear_status();
    }

    fn jump_left_cursor_file_edge(&mut self, to_end: bool, dims: &SplitDims)
        requires
            old(self)@.wf(),
        ensures
            final(self)@.wf(),
            final(self)@ == old(self)@.file_edge(to_end, *dims),
    {
        self.unfollow();
        self.lay_out(dims);
        let count: usize = self.count();
        if count == 0 {
            self.set_cursor(SelectionPoint { row: 0, col: 0 });
            return;
        }
        let row: usize = if to_end {
            count - 1
        } else {
            0
        };
        let cells: Vec<Cell> = self.left.row_cells(row);
        let col: usize = if to_end {
            last_selectable_col(cells.as_slice())
        } else {
            first_selectable_col(cells.as_slice())
        };
        self.set_cursor(SelectionPoint { row, col });
        self.ensure_left_selection_visible(dims, row);
        self.clear_status();
    }
}

impl SplitView {
    // Selections
    // ----------

    fn right_selection_start(&self) -> (r: SelectionPoint)
        requires
            self@.right.screen.wf(),
        ensures
            r == self@.right_start(),
            r.row < usize::MAX,
    {
        let rows: &[Vec<Cell>] = self.right.term.screen_rows();
        let ghost lines = self@.right.screen.lines;
        let count: usize = rows.len();
        let mut row: usize = count - 1;
        let mut i: usize = count;
        while i > 0
            invariant_except_break
                i <= count,
                count == rows@.len(),
                lines == grid(rows@),
                row == count - 1,
                last_text_row(lines, count as int, count - 1) == last_text_row(
                    lines,
                    i as int,
                    count - 1,
                ),
            ensures
                row == last_text_row(lines, count as int, count - 1),
                row < count,
            decreases i,
        {
            let text: String = row_to_text(rows[i - 1].as_slice());
            assert(rows@[i - 1]@ == lines[i - 1]);
            if !text.as_str().is_empty() {
                row = i - 1;
                break ;
            }
            i -= 1;
        }
        let cells: Vec<Cell> = self.right.row_cells(row);
        SelectionPoint { row, col: first_selectable_col(cells.as_slice()) }
    }

    fn start_selection(&mut self, mode: SelectionMode, dims: &SplitDims)
        requires
            old(self)@.wf(),
        ensures
            final(self)@.wf(),
            final(self)@ == old(self)@.selecting(mode, *dims),
    {
        let start: SelectionPoint = match self.focus {
            Focus::Left => {
                self.unfollow();
                self.normalize_left_cursor(dims)
            },
            Focus::Right => self.right_selection_start(),
        };
        let ghost before = self@;
        self.selection = Some(
            ActiveSelection { pane: self.focus, selection: Selection::new(mode, start) },
        );
        assert(self@ =~= (Split { selection: self.selection, ..before }));
        self.clear_status();
    }

    fn lay_out_pane(&mut self, pane: Focus, dims: &SplitDims)
        requires
            old(self)@.wf(),
        ensures
            final(self)@.wf(),
            final(self)@ == old(self)@.pane_laid(pane, *dims),
            pane == Focus::Left ==> final(self)@.left.layout is Some,
            final(self)@.pane_count(pane) <= usize::MAX,
    {
        match pane {
            Focus::Left => self.lay_out(dims),
            Focus::Right => {
                let count: usize = self.right.term.screen_rows().len();
            },
        }
    }

    fn pane_count(&self, pane: Focus) -> (r: usize)
        requires
            pane == Focus::Left ==> self@.left.layout is Some,
        ensures
            r == self@.pane_count(pane),
    {
        match pane {
            Focus::Left => self.count(),
            Focus::Right => self.right.term.screen_rows().len(),
        }
    }

    fn pane_row(&self, pane: Focus, row: usize) -> (r: Vec<Cell>)
        requires
            pane == Focus::Left ==> self@.left.layout is Some,
        ensures
            r@ == self@.pane_row(pane, row as int),
    {
        match pane {
            Focus::Left => self.left.row_cells(row),
            Focus::Right => self.right.row_cells(row),
        }
    }

    fn set_selection_cursor(&mut self, active: ActiveSelection, to: SelectionPoint)
        requires
            old(self)@.wf(),
            active.selection.anchor.row < usize::MAX,
            to.row < usize::MAX,
        ensures
            final(self)@.wf(),
            final(self)@ == old(self)@.selection_to(active, to),
    {
        self.selection = Some(
            ActiveSelection {
                pane: active.pane,
                selection: Selection {
                    mode: active.selection.mode,
                    anchor: active.selection.anchor,
                    cursor: to,
                },
            },
        );
        if active.pane == Focus::Left {
            self.left_cursor = to;
        }
        assert(self@ =~= old(self)@.selection_to(active, to));
    }

    fn show_selection_cursor(
        &mut self,
        active: ActiveSelection,
        to: SelectionPoint,
        dims: &SplitDims,
    )
        requires
            old(self)@.wf(),
            active.selection.anchor.row < usize::MAX,
            to.row < usize::MAX,
        ensures
            final(self)@.wf(),
            final(self)@ == old(self)@.selection_shown_to(active, to, *dims),
    {
        self.set_selection_cursor(active, to);
        if active.pane == Focus::Left {
            self.ensure_left_selection_visible(dims, to.row);
        }
    }

    fn move_selection_row(
        &mut self,
        active: ActiveSelection,
        forward: bool,
        step: usize,
        dims: &SplitDims,
    )
        requires
            old(self)@.wf(),
            active.selection.anchor.row < usize::MAX,
        ensures
            final(self)@.wf(),
            final(self)@ == old(self)@.selection_row_moved(
                active,
                signed(forward, step as nat),
                *dims,
            ),
    {
        self.lay_out_pane(active.pane, dims);
        let count: usize = self.pane_count(active.pane);
        if count == 0 {
            return;
        }
        let row: usize = stepped(active.selection.cursor.row, forward, step, count - 1);
        let cells: Vec<Cell> = self.pane_row(active.pane, row);
        let col: usize = normalize_col(cells.as_slice(), active.selection.cursor.col);
        self.show_selection_cursor(active, SelectionPoint { row, col }, dims);
    }

    fn move_selection_col(&mut self, active: ActiveSelection, forward: bool, dims: &SplitDims)
        requires
            old(self)@.wf(),
            active.selection.anchor.row < usize::MAX,
            active.selection.cursor.row < usize::MAX,
        ensures
            final(self)@.wf(),
            final(self)@ == old(self)@.selection_column_moved(active, forward, *dims),
    {
        self.lay_out_pane(active.pane, dims);
        let row: usize = active.selection.cursor.row;
        let cells: Vec<Cell> = self.pane_row(active.pane, row);
        let col: usize = if forward {
            next_col(cells.as_slice(), active.selection.cursor.col)
        } else {
            previous_col(cells.as_slice(), active.selection.cursor.col)
        };
        self.set_selection_cursor(active, SelectionPoint { row, col });
    }

    fn move_selection_line_edge(&mut self, active: ActiveSelection, to_end: bool, dims: &SplitDims)
        requires
            old(self)@.wf(),
            active.selection.anchor.row < usize::MAX,
            active.selection.cursor.row < usize::MAX,
        ensures
            final(self)@.wf(),
            final(self)@ == old(self)@.selection_line_edge(active, to_end, *dims),
    {
        self.lay_out_pane(active.pane, dims);
        let row: usize = active.selection.cursor.row;
        let cells: Vec<Cell> = self.pane_row(active.pane, row);
        let col: usize = if to_end {
            last_selectable_col(cells.as_slice())
        } else {
            0
        };
        self.set_selection_cursor(active, SelectionPoint { row, col });
    }

    fn move_selection_word(&mut self, active: ActiveSelection, motion: WordMotion, dims: &SplitDims)
        requires
            old(self)@.wf(),
            active.selection.anchor.row < usize::MAX,
            active.selection.cursor.row < usize::MAX,
        ensures
            final(self)@.wf(),
            final(self)@ == old(self)@.selection_word_moved(active, motion, *dims),
    {
        self.lay_out_pane(active.pane, dims);
        if self.pane_count(active.pane) == 0 {
            return;
        }
        let start: SelectionPoint = active.selection.cursor;
        let target: SelectionPoint = match active.pane {
            Focus::Left => self.left.word_from(start, motion),
            Focus::Right => self.right.word_from(start, motion),
        };
        self.show_selection_cursor(active, target, dims);
    }

    fn jump_selection_file_edge(&mut self, active: ActiveSelection, to_end: bool, dims: &SplitDims)
        requires
            old(self)@.wf(),
            active.selection.anchor.row < usize::MAX,
        ensures
            final(self)@.wf(),
            final(self)@ == old(self)@.selection_file_edge(active, to_end, *dims),
    {
        self.lay_out_pane(active.pane, dims);
        let count: usize = self.pane_count(active.pane);
        if count == 0 {
            return;
        }
        let row: usize = if to_end {
            count - 1
        } else {
            0
        };
        let cells: Vec<Cell> = self.pane_row(active.pane, row);
        let col: usize = if to_end {
            last_selectable_col(cells.as_slice())
        } else {
            first_selectable_col(cells.as_slice())
        };
        self.show_selection_cursor(active, SelectionPoint { row, col }, dims);
    }

    fn move_selection_screen_position(
        &mut self,
        active: ActiveSelection,
        position: ScreenPosition,
        dims: &SplitDims,
    )
        requires
            old(self)@.wf(),
            active.selection.anchor.row < usize::MAX,
        ensures
            final(self)@.wf(),
            final(self)@ == old(self)@.selection_screen_moved(active, position, *dims),
    {
        self.lay_out_pane(active.pane, dims);
        let count: usize = self.pane_count(active.pane);
        if count == 0 {
            return;
        }
        let row: usize = match active.pane {
            Focus::Left => {
                if self.left.view_end(dims.rows) <= self.left.top {
                    return;
                }
                self.position_row(position, dims)
            },
            Focus::Right => match position {
                ScreenPosition::Top => 0,
                ScreenPosition::Middle => (count - 1) / 2,
                ScreenPosition::Bottom => count - 1,
            },
        };
        let cells: Vec<Cell> = self.pane_row(active.pane, row);
        let col: usize = first_selectable_col(cells.as_slice());
        self.set_selection_cursor(active, SelectionPoint { row, col });
    }

    fn scroll_selection_preserve_cursor(
        &mut self,
        active: ActiveSelection,
        forward: bool,
        dims: &SplitDims,
    )
        requires
            old(self)@.wf(),
            active.selection.anchor.row < usize::MAX,
        ensures
            final(self)@.wf(),
            final(self)@ == old(self)@.selection_view_scrolled(active, signed(forward, 1), *dims),
    {
        match active.pane {
            Focus::Left => {
                self.scroll_left_view_preserve_cursor(forward, dims);
                let cursor: SelectionPoint = self.left_cursor;
                self.set_selection_cursor(active, cursor);
            },
            Focus::Right => self.move_selection_row(active, forward, 1, dims),
        }
    }

    fn drop_selection(&mut self)
        requires
            old(self)@.wf(),
        ensures
            final(self)@.wf(),
            final(self)@ == old(self)@.without_selection(),
    {
        self.selection = None;
        assert(self@ =~= old(self)@.without_selection());
    }

    fn copy_selection(&mut self, active: ActiveSelection, dims: &SplitDims) -> (r: String)
        requires
            old(self)@.wf(),
        ensures
            final(self)@.wf(),
            final(self)@ == old(self)@.pane_laid(active.pane, *dims),
            r@ == old(self)@.selection_copied(active, *dims),
    {
        self.lay_out_pane(active.pane, dims);
        match active.pane {
            Focus::Left => self.left.selected_text(active.selection),
            Focus::Right => self.right.selected_text(active.selection),
        }
    }

    /// Takes in what came of putting the selection into the clipboard: the message if that
    /// failed.
    pub fn report_copy(&mut self, error: Option<&str>)
        requires
            old(self)@.wf(),
        ensures
            final(self)@.wf(),
            final(self)@ == old(self)@.copy_reported(
                match error {
                    Some(message) => Some(message@),
                    None => None,
                },
            ),
    {
        let active: ActiveSelection = match self.selection {
            Some(active) => active,
            None => {
                return;
            },
        };
        let mut text: String = String::new();
        match error {
            Some(message) => {
                text.append("Clipboard copy failed: ");
                text.append(message);
                assert(text@ =~= "Clipboard copy failed: "@ + message@);
                self.set_status(text);
            },
            None => {
                let lines: usize = active.selection.line_span();
                text.append("Copied ");
                push_decimal(&mut text, lines as u64);
                text.append(" displayed line");
                text.append(plural_ending(lines));
                text.append(" from ");
                text.append(pane_text(active.pane));
                text.append(" pane");
                assert(text@ =~= "Copied "@ + decimal(lines as nat) + " displayed line"@ + plural(
                    lines as nat,
                ) + " from "@ + pane_name(active.pane) + " pane"@);
                self.drop_selection();
                self.set_status(text);
            },
        }
    }
}

pub(crate) fn plural_ending(n: usize) -> (r: &'static str)
    ensures
        r@ == plural(n as nat),
{
    if n == 1 {
        ""
    } else {
        "s"
    }
}

fn pane_text(pane: Focus) -> (r: &'static str)
    ensures
        r@ == pane_name(pane),
{
    match pane {
        Focus::Left => "left",
        Focus::Right => "right",
    }
}

/// The name of a kind of selection in messages.
pub fn selection_label(mode: SelectionMode) -> (r: &'static str)
    ensures
        r@ == mode_label(mode),
{
    match mode {
        SelectionMode::Character => "VISUAL",
        SelectionMode::Line => "V-LINE",
    }
}

impl SplitView {
    // Keys
    // ----

    fn follow(&mut self, dims: &SplitDims)
        requires
            old(self)@.wf(),
        ensures
            final(self)@.wf(),
            final(self)@ == old(self)@.following(*dims),
    {
        let ghost before = self@;
        self.left.follow = true;
        assert(self.left@ =~= (Viewer { follow: true, ..before.left }));
        self.left.jump_to_end(dims.rows, dims.left_cols);
        assert(self@ =~= before.with_left(
            (Viewer { follow: true, ..before.left }).at_end(
                dims.rows as nat,
                dims.left_cols as nat,
            ),
        ));
        self.snap_left_cursor_to_end(dims);
        self.set_status("Follow mode".to_owned());
    }

    fn cursor_to_top(&mut self, dims: &SplitDims)
        requires
            old(self)@.wf(),
        ensures
            final(self)@.wf(),
            final(self)@ == old(self)@.with_cursor(
                point(old(self)@.left.top as int, 0),
            ).normalized(*dims),
    {
        let ghost before = self@;
        self.left_cursor = SelectionPoint { row: self.left.top, col: 0 };
        assert(self@ =~= before.with_cursor(point(before.left.top as int, 0)));
        let ghost moved = self@;
        let count: usize = self.left.display_len(dims.left_cols);
        assert(self@ =~= moved.laid(*dims));
        let cursor: SelectionPoint = self.normal_cursor();
        self.left_cursor = cursor;
        assert(self@ =~= moved.normalized(*dims));
    }

    fn repeat_search(&mut self, forward: bool, dims: &SplitDims)
        requires
            old(self)@.wf(),
        ensures
            final(self)@.wf(),
            final(self)@ == old(self)@.search_repeated(forward, *dims),
    {
        let ghost before = self@;
        let _ = self.left.repeat_search(forward, dims.rows, dims.left_cols);
        assert(self@ =~= before.with_left(
            before.left.search_repeated(forward, dims.rows as nat, dims.left_cols as nat),
        ));
        self.cursor_to_top(dims);
    }

    /// Searches for a text that has been typed.
    pub fn finish_search(&mut self, term: String, dims: &SplitDims)
        requires
            old(self)@.wf(),
            dims.wf(),
        ensures
            final(self)@.wf(),
            final(self)@ == old(self)@.searched(term@, *dims),
    {
        let ghost before = self@;
        self.clear_status();
        self.previous_frame = None;
        let ghost start = Split { frame: None, ..before.with_status(Seq::empty()) };
        assert(self@ =~= start);
        if term.as_str().is_empty() {
            return;
        }
        self.left.search_term = Some(term.clone());
        self.left.last_search_forward = true;
        let ghost v = Viewer {
            search_term: Some(term@),
            last_search_forward: true,
            ..start.left
        };
        assert(self.left@ =~= v);
        let found: bool = self.left.search(term.as_str(), true, dims.rows, dims.left_cols);
        assert(self@ =~= start.with_left(
            v.searched(term@, true, dims.rows as nat, dims.left_cols as nat),
        ));
        let mut text: String = String::new();
        if found {
            self.cursor_to_top(dims);
            text.append("/");
        } else {
            text.append("Pattern not found: ");
        }
        text.append(term.as_str());
        assert(text@ =~= (if found {
            "/"@ + term@
        } else {
            "Pattern not found: "@ + term@
        }));
        self.set_status(text);
    }

    fn show_left_help(&mut self)
        requires
            old(self)@.wf(),
        ensures
            final(self)@.wf(),
            final(self)@ == old(self)@.with_status(help_text()),
    {
        self.set_status(
            "h/j/k/l move cursor, w/e/b words, C-n and arrows move, C-e/C-y scroll view, space/f/C-f page down, C-b page up, d/u half-page, 0/$ line, g/G file, H/M/L screen, / search, n/N repeat, v/V visual select, Ctrl-w h/l switch pane, p paste to right, ? help, Ctrl-g v/V/p/q extra actions".to_owned(),
        );
    }

    fn half_step(dims: &SplitDims) -> (r: usize)
        ensures
            r == half_height(dims.rows as nat),
    {
        let rows: usize = ViewerCore::content_height(dims.rows);
        if rows < 2 {
            1
        } else {
            rows / 2
        }
    }

    #[verifier::rlimit(40)]
    fn handle_left_key(&mut self, key: Key, dims: &SplitDims) -> (r: Action)
        requires
            old(self)@.wf(),
        ensures
            final(self)@.wf(),
            (final(self)@, r@) == old(self)@.left_done(left_binding(key), *dims),
    {
        proof {
            reveal(Split::left_done);
        }
        match left_command(key) {
            Command::Select(mode) => {
                self.start_selection(mode, dims);
                Action::Continue
            },
            Command::Paste => Action::Paste,
            Command::QuitHint => {
                self.set_status("Use Ctrl-g q to quit logsplit".to_owned());
                Action::Continue
            },
            Command::Row { forward } => {
                self.move_left_cursor_row(forward, 1, dims);
                Action::Continue
            },
            Command::View { forward } => {
                self.scroll_left_view_preserve_cursor(forward, dims);
                Action::Continue
            },
            Command::Column { forward } => {
                self.move_left_cursor_col(forward, dims);
                Action::Continue
            },
            Command::Word(motion) => {
                self.move_left_cursor_word(motion, dims);
                Action::Continue
            },
            Command::Page { forward } => {
                let step: usize = ViewerCore::content_height(dims.rows);
                self.move_left_cursor_row(forward, step, dims);
                Action::Continue
            },
            Command::HalfPage { forward } => {
                let step: usize = SplitView::half_step(dims);
                self.move_left_cursor_row(forward, step, dims);
                Action::Continue
            },
            Command::LineEdge { to_end } => {
                self.move_left_cursor_line_edge(to_end, dims);
                Action::Continue
            },
            Command::FileEdge { to_end } => {
                self.jump_left_cursor_file_edge(to_end, dims);
                Action::Continue
            },
            Command::Screen(position) => {
                self.move_left_cursor_screen_position(position, dims);
                Action::Continue
            },
            Command::Follow => {
                self.follow(dims);
                Action::Continue
            },
            Command::StopFollow => {
                self.unfollow();
                self.set_status("Follow stopped".to_owned());
                Action::Continue
            },
            Command::Reload => Action::Reload,
            Command::Search => Action::Prompt,
            Command::Repeat { forward } => {
                self.repeat_search(forward, dims);
                Action::Continue
            },
            Command::Help => {
                self.show_left_help();
                Action::Continue
            },
            _ => Action::Continue,
        }
    }

    #[verifier::rlimit(40)]
    fn handle_selection_key(&mut self, active: ActiveSelection, key: Key, dims: &SplitDims) -> (r:
        Action)
        requires
            old(self)@.wf(),
            active.selection.anchor.row < usize::MAX,
            active.selection.cursor.row < usize::MAX,
        ensures
            final(self)@.wf(),
            (final(self)@, r@) == old(self)@.selection_done(active, selection_binding(key), *dims),
    {
        proof {
            reveal(Split::selection_done);
        }
        match selection_command(key) {
            Command::Cancel => {
                self.drop_selection();
                self.set_status("Selection cleared".to_owned());
                Action::Continue
            },
            Command::Copy => {
                let text: String = self.copy_selection(active, dims);
                Action::Copy(text)
            },
            Command::Row { forward } => {
                self.move_selection_row(active, forward, 1, dims);
                Action::Continue
            },
            Command::View { forward } => {
                self.scroll_selection_preserve_cursor(active, forward, dims);
                Action::Continue
            },
            Command::Column { forward } => {
                self.move_selection_col(active, forward, dims);
                Action::Continue
            },
            Command::Word(motion) => {
                self.move_selection_word(active, motion, dims);
                Action::Continue
            },
            Command::Page { forward } => {
                let step: usize = ViewerCore::content_height(dims.rows);
                self.move_selection_row(active, forward, step, dims);
                Action::Continue
            },
            Command::HalfPage { forward } => {
                let step: usize = SplitView::half_step(dims);
                self.move_selection_row(active, forward, step, dims);
                Action::Continue
            },
            Command::LineEdge { to_end } => {
                self.move_selection_line_edge(active, to_end, dims);
                Action::Continue
            },
            Command::FileEdge { to_end } => {
                self.jump_selection_file_edge(active, to_end, dims);
                Action::Continue
            },
            Command::Screen(position) => {
                self.move_selection_screen_position(active, position, dims);
                Action::Continue
            },
            _ => Action::Continue,
        }
    }

    fn handle_switch_key(&mut self, key: Key)
        requires
            old(self)@.wf(),
        ensures
            final(self)@.wf(),
            final(self)@ == old(self)@.switched(key),
    {
        let ghost before = self@;
        self.switch_prefix_pending = false;
        let ghost s = Split { switch_prefix_pending: false, ..before };
        assert(self@ =~= s);
        if key.is_plain('h') {
            self.selection = None;
            self.focus = Focus::Left;
            assert(self@ =~= (Split { selection: None, focus: Focus::Left, ..s }));
        } else if key.is_plain('l') {
            self.selection = None;
            self.focus = Focus::Right;
            assert(self@ =~= (Split { selection: None, focus: Focus::Right, ..s }));
        } else if key.code == KeyCode::Esc {
        } else {
            self.set_status("Ctrl-w h/l switches panes".to_owned());
        }
    }

    fn handle_prefixed_key(&mut self, key: Key, dims: &SplitDims) -> (r: Action)
        requires
            old(self)@.wf(),
        ensures
            final(self)@.wf(),
            (final(self)@, r@) == old(self)@.prefixed(key, *dims),
    {
        let ghost before = self@;
        self.prefix_pending = false;
        assert(self@ =~= (Split { prefix_pending: false, ..before }));
        if key.is_plain('v') {
            self.start_selection(SelectionMode::Character, dims);
            Action::Continue
        } else if key.is_char('V') {
            self.start_selection(SelectionMode::Line, dims);
            Action::Continue
        } else if key.is_char('p') || key.is_char('P') {
            Action::Paste
        } else if key.is_char('q') {
            Action::Quit
        } else {
            Action::Continue
        }
    }

    /// Takes in a key. Returns what has to be done outside.
    pub fn handle_key(&mut self, key: Key, dims: &SplitDims) -> (r: Action)
        requires
            old(self)@.wf(),
            dims.wf(),
        ensures
            final(self)@.wf(),
            (final(self)@, r@) == old(self)@.key_done(key, *dims),
    {
        let ghost before = self@;
        if self.switch_prefix_pending {
            self.handle_switch_key(key);
            return Action::Continue;
        }
        if self.prefix_pending {
            return self.handle_prefixed_key(key, dims);
        }
        if key.is_control('w') {
            self.switch_prefix_pending = true;
            assert(self@ =~= (Split { switch_prefix_pending: true, ..before }));
            return Action::Continue;
        }
        if key.is_control('g') {
            self.prefix_pending = true;
            assert(self@ =~= (Split { prefix_pending: true, ..before }));
            return Action::Continue;
        }
        match self.selection {
            Some(active) => {
                return self.handle_selection_key(active, key, dims);
            },
            None => {},
        }
        match self.focus {
            Focus::Left => self.handle_left_key(key, dims),
            Focus::Right => match encode_key(key) {
                Some(bytes) => {
                    if self.right.alive {
                        Action::Send(bytes)
                    } else {
                        Action::Continue
                    }
                },
                None => Action::Continue,
            },
        }
    }

    // The clipboard
    // -------------

    /// Takes in the clipboard's text, or the message if it could not be had. Returns the
    /// bytes to send to the program, if any.
    pub fn paste(&mut self, clipboard: Result<String, String>) -> (r: Option<Vec<u8>>)
        requires
            old(self)@.wf(),
        ensures
            final(self)@.wf(),
            ({
                let done = old(self)@.pasting(
                    match clipboard {
                        Ok(text) => Ok(text@),
                        Err(message) => Err(message@),
                    },
                );
                &&& final(self)@ == done.0
                &&& match r {
                    Some(bytes) => done.1 == Some(bytes@),
                    None => done.1 is None,
                }
            }),
    {
        match clipboard {
            Ok(text) => {
                if text.as_str().is_empty() {
                    self.set_status("Clipboard is empty".to_owned());
                    return None;
                }
                if !self.right.alive {
                    self.set_status("Right pane is not running".to_owned());
                    return None;
                }
                Some(vstd::slice::slice_to_vec(text.as_str().as_bytes()))
            },
            Err(message) => {
                let mut status: String = "Clipboard paste failed: ".to_owned();
                status.append(message.as_str());
                self.set_status(status);
                None
            },
        }
    }

    /// Takes in what came of sending `count` pasted bytes: the message if that failed.
    pub fn report_paste(&mut self, count: usize, error: Option<&str>)
        requires
            old(self)@.wf(),
        ensures
            final(self)@.wf(),
            final(self)@ == old(self)@.paste_reported(
                count as nat,
                match error {
                    Some(message) => Some(message@),
                    None => None,
                },
            ),
    {
        let mut text: String = String::new();
        match error {
            Some(message) => {
                text.append("Paste failed: ");
                text.append(message);
                assert(text@ =~= "Paste failed: "@ + message@);
            },
            None => {
                text.append("Pasted ");
                push_decimal(&mut text, count as u64);
                text.append(" byte");
                text.append(plural_ending(count));
                text.append(" into right pane");
                assert(text@ =~= "Pasted "@ + decimal(count as nat) + " byte"@ + plural(
                    count as nat,
                ) + " into right pane"@);
            },
        }
        self.set_status(text);
    }

    // The log
    // -------

    /// Takes in an update of the log. Returns whether it brought anything.
    pub fn sync_left_from_log(&mut self, update: LogUpdate, dims: &SplitDims) -> (r: bool)
        requires
            old(self)@.wf(),
            dims.wf(),
            old(self)@.left.polled_offset(update) <= u64::MAX,
        ensures
            final(self)@.wf(),
            r == ReplayFile::update_changes(update),
            final(self)@ == old(self)@.updated(update, *dims),
    {
        let ghost before = self@;
        let changed: bool = self.left.poll(dims.rows, dims.left_cols, update);
        assert(self@ =~= before.with_left(
            before.left.updated(update, dims.rows as nat, dims.left_cols as nat),
        ));
        if self.left.follow {
            self.snap_left_cursor_to_end(dims);
        } else {
            let _ = self.normalize_left_cursor(dims);
        }
        changed
    }

    fn reread_log(&mut self, recording: Recording, dims: &SplitDims)
        requires
            old(self)@.wf(),
        ensures
            final(self)@.wf(),
            final(self)@ == old(self)@.log_reread(recording, *dims),
            final(self)@.selection == old(self)@.selection,
    {
        let ghost before = self@;
        self.left.resize_source(
            dims.rows,
            dims.right_cols,
            dims.rows,
            dims.left_cols,
            recording,
        );
        let ghost v = self.left@;
        assert(self@ =~= before.with_left(v));
        if self.left.follow {
            self.left.jump_to_end(dims.rows, dims.left_cols);
            assert(self@ =~= before.with_left(
                v.at_end(dims.rows as nat, dims.left_cols as nat),
            ));
            self.snap_left_cursor_to_end(dims);
        } else {
            let cursor: SelectionPoint = self.normalize_left_cursor(dims);
            self.ensure_left_selection_visible(dims, cursor.row);
        }
    }

    /// Shows the log as it has been read again on request.
    pub fn reload(&mut self, recording: Recording, dims: &SplitDims)
        requires
            old(self)@.wf(),
            dims.wf(),
        ensures
            final(self)@.wf(),
            final(self)@ == old(self)@.reloaded(recording, *dims),
    {
        self.reread_log(recording, dims);
        self.set_status("Reloaded".to_owned());
        let ghost before = self@;
        self.previous_frame = None;
        assert(self@ =~= (Split { frame: None, ..before }));
    }

    /// Takes in a new size of the display, with the log as it has been read again.
    pub fn handle_resize(&mut self, recording: Recording, dims: &SplitDims)
        requires
            old(self)@.wf(),
            dims.wf(),
        ensures
            final(self)@.wf(),
            final(self)@ == old(self)@.display_resized(recording, *dims),
    {
        self.reread_log(recording, dims);
        let ghost s = self@;
        self.right.resize(dims.rows, dims.right_cols);
        let had_selection: bool = self.selection.is_some();
        self.selection = None;
        self.previous_frame = None;
        assert(self@ =~= (Split {
            right: Program {
                screen: s.right.screen.resize(dims.rows as nat, dims.right_cols as nat),
                ..s.right
            },
            selection: None,
            frame: None,
            ..s
        }));
        if had_selection {
            self.set_status("Selection cleared after resize".to_owned());
        }
    }
}

// Drawing
// -------

fn reversed_cell(ch: char) -> (r: Cell)
    ensures
        r == status_cell(ch),
{
    let style = Style { fg: None, bg: None, bold: false, dim: false, reverse: true };
    Cell { ch, style, wide_cont: false }
}

/// The cells of a status line: the text on reversed colours, cut or filled up to a width.
pub fn reverse_status_cells(text: &str, width: usize) -> (r: Vec<Cell>)
    ensures
        r@ == status_cells(text@, width as nat),
{
    let shown: String = fit_text(text, width);
    let chars: Vec<char> = chars_of(shown.as_str());
    let mut cells: Vec<Cell> = Vec::new();
    let mut i: usize = 0;
    while i < chars.len()
        invariant
            i <= chars@.len(),
            cells@.len() == i,
            forall|k: int| 0 <= k < i ==> cells@[k] == status_cell(chars@[k]),
        decreases chars@.len() - i,
    {
        cells.push(reversed_cell(chars[i]));
        i += 1;
    }
    assert(cells@ =~= status_cells(text@, width as nat));
    cells
}

/// Shows the cursor at a column of a row.
pub fn apply_cursor_highlight(row: &mut Vec<Cell>, col: usize, focused: bool)
    ensures
        final(row)@ == with_cursor_shown(old(row)@, col as int, focused),
{
    if row.len() == 0 {
        row.push(Cell::blank(Style::default()));
        assert(row@ =~= seq![crate::cell::blank_cell(crate::cell::plain_style())]);
    }
    let ghost cells = row@;
    let total: usize = row.len();
    let at: usize = normalize_col(row.as_slice(), col);
    let cell: Cell = row[at];
    let style = Style {
        bg: Some(
            if focused {
                245
            } else {
                240
            },
        ),
        bold: focused,
        dim: false,
        reverse: false,
        ..cell.style
    };
    row.set(at, Cell { style, ..cell });
    if at + 1 < total && row[at + 1].wide_cont {
        let next: Cell = row[at + 1];
        row.set(at + 1, Cell { style, ..next });
    }
    assert(row@ =~= with_cursor_shown(old(row)@, col as int, focused));
}

fn draw_segment_diff(y: u16, x_offset: usize, previous: Option<&[Cell]>, cells: &[Cell]) -> (r: Vec<
    DrawOp,
>)
    requires
        x_offset + cells@.len() <= usize::MAX,
    ensures
        ops(r@) == segment_ops(
            y,
            x_offset as nat,
            match previous {
                Some(row) => Some(row@),
                None => None,
            },
            cells@,
        ),
{
    match previous {
        Some(row) => {
            if crate::render::same_cells(row, cells) {
                let none: Vec<DrawOp> = Vec::new();
                assert(ops(none@) =~= Seq::<Op>::empty());
                return none;
            }
        },
        None => {},
    }
    let mut out: Vec<DrawOp> = clear_segment(y, x_offset, cells.len());
    let drawn: Vec<DrawOp> = draw_cells(y, x_offset, cells, x_offset + cells.len());
    push_ops(&mut out, drawn);
    out
}

fn part_of(row: Option<&Vec<Cell>>, from: usize, to: usize) -> (r: Option<&[Cell]>)
    requires
        row matches Some(cells) ==> from <= to <= cells@.len(),
    ensures
        match r {
            Some(cells) => row is Some && cells@ == row->0@.subrange(from as int, to as int),
            None => row is None,
        },
{
    match row {
        Some(cells) => Some(vstd::slice::slice_subrange(cells.as_slice(), from, to)),
        None => None,
    }
}

fn draw_row(frame: &FrameSnapshot, previous: Option<&Vec<Cell>>, y: usize) -> (r: Vec<DrawOp>)
    requires
        frame@.wf(),
        y < frame.rows@.len(),
        previous matches Some(row) ==> row@.len() == frame.width,
    ensures
        ops(r@) == frame_row_ops(
            frame@,
            match previous {
                Some(row) => Some(row@),
                None => None,
            },
            y as int,
        ),
{
    let line: u16 = to_display(y);
    let separator: usize = frame.separator_col;
    let width: usize = frame.width as usize;
    let row: &[Cell] = frame.rows[y].as_slice();
    assert(frame@.rows[y as int] == row@);
    let mut out: Vec<DrawOp> = draw_segment_diff(
        line,
        0,
        part_of(previous, 0, separator),
        vstd::slice::slice_subrange(row, 0, separator),
    );
    let middle: Vec<DrawOp> = draw_segment_diff(
        line,
        separator,
        part_of(previous, separator, separator + 1),
        vstd::slice::slice_subrange(row, separator, separator + 1),
    );
    push_ops(&mut out, middle);
    let right: Vec<DrawOp> = draw_segment_diff(
        line,
        separator + 1,
        part_of(previous, separator + 1, width),
        vstd::slice::slice_subrange(row, separator + 1, width),
    );
    push_ops(&mut out, right);
    out
}

/// The steps that bring the display from one frame to another. Parts of lines that stay
/// the same are not drawn again, unless the shape has changed.
pub fn draw_frame_diff(frame: &FrameSnapshot, previous: &Option<FrameSnapshot>) -> (r: Vec<DrawOp>)
    requires
        frame@.wf(),
        previous matches Some(before) ==> before@.wf(),
    ensures
        ops(r@) == frame_ops(frame@, frame_view(*previous), frame@.height),
{
    let ghost before = frame_view(*previous);
    let mut out: Vec<DrawOp> = Vec::new();
    assert(ops(out@) =~= Seq::<Op>::empty());
    let mut y: usize = 0;
    while y < frame.rows.len()
        invariant
            y <= frame.rows@.len(),
            frame@.wf(),
            previous matches Some(earlier) ==> earlier@.wf(),
            before == frame_view(*previous),
            ops(out@) == frame_ops(frame@, before, y as nat),
        decreases frame.rows@.len() - y,
    {
        let drawn: Option<&Vec<Cell>> = match previous {
            Some(earlier) => {
                if earlier.width == frame.width && earlier.height == frame.height
                    && earlier.separator_col == frame.separator_col && earlier.rows.len()
                    == frame.rows.len() {
                    assert(earlier@.rows[y as int] == earlier.rows@[y as int]@);
                    Some(&earlier.rows[y])
                } else {
                    None
                }
            },
            None => None,
        };
        let line: Vec<DrawOp> = draw_row(frame, drawn, y);
        push_ops(&mut out, line);
        y += 1;
    }
    out
}

impl SplitView {
    fn status_override_text(&self) -> (r: Option<String>)
        ensures
            match r {
                Some(text) => self@.status_override() == Some(text@),
                None => self@.status_override() is None,
            },
    {
        match self.selection {
            Some(active) => {
                let mut text: String = selection_label(active.selection.mode).to_owned();
                text.append(" ");
                text.append(pane_text(active.pane));
                text.append(" pane  h/j/k/l move  w/e/b word  H/M/L screen  y copy  Esc cancel");
                assert(text@ =~= self@.status_override()->0);
                Some(text)
            },
            None => None,
        }
    }

    fn separator_cell(&self, y: usize) -> (r: Cell)
        ensures
            r == self@.separator_cell(y as int),
    {
        let ch: char = if y != 0 {
            '|'
        } else if self.switch_prefix_pending {
            'w'
        } else if self.prefix_pending {
            '*'
        } else {
            match self.focus {
                Focus::Left => '<',
                Focus::Right => '>',
            }
        };
        let fg: u8 = match self.focus {
            Focus::Left => 11,
            Focus::Right => 14,
        };
        let style = Style {
            fg: Some(fg),
            bg: None,
            bold: false,
            dim: false,
            reverse: false,
        };
        Cell { ch, style, wide_cont: false }
    }

    fn highlight(&self, pane: Focus, row: usize, cells: &mut Vec<Cell>)
        ensures
            final(cells)@ == self@.highlighted_row(pane, row as int, old(cells)@),
    {
        match self.selection {
            Some(active) => {
                if active.pane == pane {
                    apply_selection_highlight(cells.as_mut_slice(), row, &active.selection);
                }
            },
            None => {},
        }
    }

    fn left_line(&self, y: usize) -> (r: Vec<Cell>)
        requires
            self@.left.layout is Some,
            self@.left.top + y <= usize::MAX,
        ensures
            r@ == self@.left_line(y as int),
    {
        let row: usize = self.left.top + y;
        let mut cells: Vec<Cell> = self.left.row_cells(row);
        self.highlight(Focus::Left, row, &mut cells);
        if row == self.left_cursor.row {
            apply_cursor_highlight(&mut cells, self.left_cursor.col, self.focus == Focus::Left);
        }
        cells
    }

    fn build_line(&self, dims: &SplitDims, y: usize, status: &Vec<Cell>) -> (r: Vec<Cell>)
        requires
            dims.wf(),
            self@.left.layout is Some,
            self@.left.top + y <= usize::MAX,
            status@ == self@.left_status(*dims),
            y < dims.rows,
        ensures
            r@ == self@.line(*dims, y as int),
            r@.len() == dims.width(),
    {
        let width: usize = dims.left_cols + 1 + dims.right_cols;
        let mut row: Vec<Cell> = vec![Cell::blank(Style::default()); width];
        assert(row@ =~= crate::screen::blank_row(dims.width(), crate::cell::plain_style()));
        if y < ViewerCore::content_height(dims.rows) {
            let cells: Vec<Cell> = self.left_line(y);
            overlay(&mut row, 0, &cells, dims.left_cols);
        }
        if y == dims.rows - 1 {
            overlay(&mut row, 0, status, dims.left_cols);
        }
        row.set(dims.separator_col, self.separator_cell(y));
        if y < self.right.term.screen_rows().len() {
            let mut cells: Vec<Cell> = self.right.row_cells(y);
            self.highlight(Focus::Right, y, &mut cells);
            overlay(&mut row, dims.separator_col + 1, &cells, dims.right_cols);
        }
        row
    }

    fn build_frame(&mut self, dims: &SplitDims) -> (r: FrameSnapshot)
        requires
            old(self)@.wf(),
            dims.wf(),
        ensures
            final(self)@.wf(),
            final(self)@ == old(self)@.settled(*dims),
            r@ == final(self)@.picture(*dims),
            r@.wf(),
    {
        let ghost before = self@;
        self.left.keep_top(dims.rows, dims.left_cols);
        assert(self@ =~= before.with_left(
            before.left.bounded(dims.rows as nat, dims.left_cols as nat),
        ));
        proof {
            crate::viewer::settling_settles(before.left, dims.rows as nat, dims.left_cols as nat);
        }
        let _ = self.normalize_left_cursor(dims);
        let text: Option<String> = self.status_override_text();
        let status_text: String = match &text {
            Some(shown) => self.left.status_line(
                dims.rows,
                dims.left_cols,
                Some(shown.as_str()),
            ),
            None => self.left.status_line(dims.rows, dims.left_cols, None),
        };
        let status: Vec<Cell> = reverse_status_cells(status_text.as_str(), dims.left_cols);
        let count: usize = self.count();
        let mut rows: Vec<Vec<Cell>> = Vec::new();
        let mut y: usize = 0;
        while y < dims.rows
            invariant
                y <= dims.rows,
                dims.wf(),
                self@.left.layout is Some,
                self@.left.top <= self@.left.last_top(dims.rows as nat),
                count == self@.count(),
                status@ == self@.left_status(*dims),
                rows@.len() == y,
                forall|k: int| 0 <= k < y ==> (#[trigger] rows@[k])@ == self@.line(*dims, k),
                forall|k: int| 0 <= k < y ==> (#[trigger] rows@[k])@.len() == dims.width(),
            decreases dims.rows - y,
        {
            rows.push(self.build_line(dims, y, &status));
            y += 1;
        }
        let frame = FrameSnapshot {
            width: (dims.left_cols + 1 + dims.right_cols) as u16,
            height: dims.rows as u16,
            separator_col: dims.separator_col,
            rows,
        };
        assert(frame@.rows =~= self@.picture(*dims).rows);
        frame
    }

    /// Brings the display up to date: the steps that draw what has changed since the last
    /// time.
    pub fn draw(&mut self, dims: &SplitDims) -> (r: Vec<DrawOp>)
        requires
            old(self)@.wf(),
            dims.wf(),
        ensures
            final(self)@.wf(),
            final(self)@ == old(self)@.drawn(*dims),
            ops(r@) == old(self)@.drawing(*dims),
    {
        let frame: FrameSnapshot = self.build_frame(dims);
        let ghost settled = self@;
        let steps: Vec<DrawOp> = draw_frame_diff(&frame, &self.previous_frame);
        let ghost picture = frame@;
        self.previous_frame = Some(frame);
        assert(self@ =~= (Split { frame: Some(picture), ..settled }));
        steps
    }
}

/// Shows a line that is being typed in the status line of the left pane.
pub fn draw_prompt(prompt: &str, line: &Prompt, dims: &SplitDims) -> (r: Vec<DrawOp>)
    requires
        dims.wf(),
    ensures
        ops(r@) == prompt_ops(prompt@, line@, *dims),
{
    let mut text: String = prompt.to_owned();
    push_chars(&mut text, line.chars.as_slice());
    let mut out: Vec<DrawOp> = Vec::new();
    assert(ops(out@) =~= Seq::<Op>::empty());
    push_op(&mut out, DrawOp::MoveTo { x: 0, y: to_display(dims.rows - 1) });
    push_op(&mut out, DrawOp::Reset);
    push_op(&mut out, DrawOp::Reverse);
    push_op(&mut out, DrawOp::Print(fit_text(text.as_str(), dims.left_cols)));
    push_op(&mut out, DrawOp::Reset);
    assert(ops(out@) =~= prompt_ops(prompt@, line@, *dims));
    out
}

fn overlay(row: &mut Vec<Cell>, x: usize, cells: &Vec<Cell>, width: usize)
    requires
        x <= old(row)@.len(),
    ensures
        final(row)@ == laid_over(old(row)@, x as nat, cells@, width as nat),
        final(row)@.len() == old(row)@.len(),
{
    let ghost before = row@;
    overlay_cells(row.as_mut_slice(), x, cells.as_slice(), width);
    proof {
        crate::render::overlay_stays_inside(
            before,
            x as int,
            crate::render::overlay_end(before.len(), x as nat, width as nat) as int,
            cells@,
            0,
        );
    }
}

} // verus!
