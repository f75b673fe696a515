//! The model of the split view: a log viewer on the left, a running program on the right,
//! and what each key does to them.

use crate::cell::{plain_style, row_text, Cell, Style};
use crate::commands::{left_binding, selection_binding, Command, ScreenPosition};
use crate::keys::{key_bytes, Key, KeyCode};
use crate::render::{cells_ops, clear_ops, display_coordinate, overlaid, overlay_end, Op};
use crate::replay::{LogUpdate, Recording, Replay};
use crate::screen::{blank_row, Screen};
use crate::selection::{
    column_before, column_behind, first_column, highlighted, last_column, normal_column,
    selected_text, word_target, Selection, SelectionMode, SelectionPoint, WordMotion,
};
use crate::terminal::clamped;
use crate::text::{decimal, fitted};
use crate::utf8::decoded_chunk;
use crate::viewer::{every_line_is_displayed, half_height, height, Viewer};
use vstd::prelude::*;
use vstd::utf8::encode_utf8;

verus! {

/// One of the two panes.
#[derive(Debug, Clone, Copy, PartialEq, Eq, Structural)]
pub enum Focus {
    Left,
    Right,
}

/// A selection in one of the panes.
#[derive(Debug, Clone, Copy, PartialEq, Eq, Structural)]
pub struct ActiveSelection {
    pub pane: Focus,
    pub selection: Selection,
}

/// How the display is divided: the left pane, the separator, the right pane.
#[derive(Debug, Clone, Copy, PartialEq, Eq, Structural)]
pub struct SplitDims {
    pub rows: usize,
    pub left_cols: usize,
    pub right_cols: usize,
    pub separator_col: usize,
}

impl SplitDims {
    /// The panes fill the display, and each has at least one column.
    pub open spec fn wf(self) -> bool {
        &&& 1 <= self.rows <= 65535
        &&& 1 <= self.left_cols
        &&& 1 <= self.right_cols
        &&& self.separator_col == self.left_cols
        &&& self.left_cols + 1 + self.right_cols <= 65535
    }

    /// The number of columns of the display.
    pub open spec fn width(self) -> nat {
        (self.left_cols + 1 + self.right_cols) as nat
    }
}

/// The program in the right pane.
#[verifier::ext_equal]
pub struct Program {
    pub screen: Screen,
    pub pending: Seq<u8>,
    pub alive: bool,
}

impl Program {
    /// Takes in what the program has written.
    pub open spec fn wrote(self, bytes: Seq<u8>) -> Program {
        let d = decoded_chunk(self.pending, bytes, false);
        Program { screen: self.screen.feed(d.text), pending: d.rest, ..self }
    }

    /// The program has ended; an incomplete character is replaced.
    pub open spec fn ended(self) -> Program {
        let d = decoded_chunk(self.pending, Seq::empty(), true);
        Program { screen: self.screen.feed(d.text), pending: d.rest, alive: false }
    }
}

/// What has been drawn.
#[verifier::ext_equal]
pub struct Frame {
    pub width: nat,
    pub height: nat,
    pub separator: nat,
    pub rows: Seq<Seq<Cell>>,
}

impl Frame {
    /// All rows have the frame's width, and the separator is one of the columns.
    pub open spec fn wf(self) -> bool {
        &&& self.separator < self.width <= 65535
        &&& self.rows.len() == self.height
        &&& self.height <= 65535
        &&& forall|y: int| 0 <= y < self.rows.len() ==> (#[trigger] self.rows[y]).len()
            == self.width
    }
}

/// What has to be done outside after a key.
pub enum Act {
    Continue,
    Quit,
    /// Let a search text be typed.
    Prompt,
    /// Put a text into the clipboard.
    Copy(Seq<char>),
    /// Get the clipboard's text.
    Paste,
    /// Send bytes to the program.
    Send(Seq<u8>),
    /// Read the log again.
    Reload,
}

/// The state of the split view.
#[verifier::ext_equal]
pub struct Split {
    pub left: Viewer,
    pub right: Program,
    pub focus: Focus,
    pub prefix_pending: bool,
    pub switch_prefix_pending: bool,
    pub cursor: SelectionPoint,
    pub selection: Option<ActiveSelection>,
    pub frame: Option<Frame>,
}

/// A place, by its row and column.
pub open spec fn point(row: int, col: int) -> SelectionPoint {
    SelectionPoint { row: row as usize, col: col as usize }
}

/// The first place of all.
pub open spec fn origin() -> SelectionPoint {
    SelectionPoint { row: 0, col: 0 }
}

/// The last row before `to` that shows any text; if there is none, `default`.
pub open spec fn last_text_row(lines: Seq<Seq<Cell>>, to: int, default: int) -> int
    decreases to,
{
    if to <= 0 {
        default
    } else if row_text(lines[to - 1]).len() > 0 {
        to - 1
    } else {
        last_text_row(lines, to - 1, default)
    }
}

/// The rows of a screen as a table.
pub open spec fn screen_table(lines: Seq<Seq<Cell>>) -> Map<int, Seq<Cell>> {
    Map::new(|i: int| 0 <= i < lines.len(), |i: int| lines[i])
}

/// One step in a direction, or several.
pub open spec fn signed(forward: bool, amount: nat) -> int {
    if forward {
        amount as int
    } else {
        -(amount as int)
    }
}

/// The name of a pane in messages.
pub open spec fn pane_name(pane: Focus) -> Seq<char> {
    match pane {
        Focus::Left => "left"@,
        Focus::Right => "right"@,
    }
}

/// The name of a kind of selection in messages.
pub open spec fn mode_label(mode: SelectionMode) -> Seq<char> {
    match mode {
        SelectionMode::Character => "VISUAL"@,
        SelectionMode::Line => "V-LINE"@,
    }
}

/// The ending of a noun behind a number.
pub open spec fn plural(n: nat) -> Seq<char> {
    if n == 1 {
        ""@
    } else {
        "s"@
    }
}

/// The help text.
pub open spec fn help_text() -> Seq<char> {
    "h/j/k/l move cursor, w/e/b words, C-n and arrows move, C-e/C-y scroll view, space/f/C-f page down, C-b page up, d/u half-page, 0/$ line, g/G file, H/M/L screen, / search, n/N repeat, v/V visual select, Ctrl-w h/l switch pane, p paste to right, ? help, Ctrl-g v/V/p/q extra actions"@
}

/// The style of a cell under the cursor: on a lighter background and bold in the pane with
/// the focus, otherwise on a darker one.
pub open spec fn cursor_style(style: Style, focused: bool) -> Style {
    Style {
        bg: Some(
            if focused {
                245u8
            } else {
                240u8
            },
        ),
        bold: focused,
        dim: false,
        reverse: false,
        ..style
    }
}

/// A cell under the cursor.
pub open spec fn cursor_cell(cell: Cell, style: Style) -> Cell {
    Cell { style, ..cell }
}

/// A row with the cursor shown at a column; an empty row gets a blank for it.
pub open spec fn with_cursor_shown(row: Seq<Cell>, col: int, focused: bool) -> Seq<Cell> {
    let cells = if row.len() == 0 {
        seq![crate::cell::blank_cell(plain_style())]
    } else {
        row
    };
    let at = normal_column(cells, col);
    let style = cursor_style(cells[at].style, focused);
    let first = cells.update(at, cursor_cell(cells[at], style));
    if at + 1 < cells.len() && cells[at + 1].wide_cont {
        first.update(at + 1, cursor_cell(cells[at + 1], style))
    } else {
        first
    }
}

/// A cell of the status line.
pub open spec fn status_cell(ch: char) -> Cell {
    Cell { ch, style: Style { reverse: true, ..plain_style() }, wide_cont: false }
}

/// The cells of the status line, cut or filled up to a width.
pub open spec fn status_cells(text: Seq<char>, width: nat) -> Seq<Cell> {
    fitted(text, width).map_values(|ch: char| status_cell(ch))
}

/// Some cells laid over a row from column `x` on, at most `width` columns.
pub open spec fn laid_over(row: Seq<Cell>, x: nat, cells: Seq<Cell>, width: nat) -> Seq<Cell> {
    overlaid(row, x as int, overlay_end(row.len(), x, width) as int, cells, 0)
}

/// The steps that draw a part of a line, unless it is drawn already.
pub open spec fn segment_ops(
    y: u16,
    x_offset: nat,
    previous: Option<Seq<Cell>>,
    cells: Seq<Cell>,
) -> Seq<Op> {
    if previous == Some(cells) {
        Seq::empty()
    } else {
        clear_ops(y, x_offset, cells.len()) + cells_ops(y, x_offset, cells, x_offset + cells.len())
    }
}

/// A part of a row that may be missing.
pub open spec fn part(row: Option<Seq<Cell>>, from: nat, to: nat) -> Option<Seq<Cell>> {
    match row {
        Some(cells) => Some(cells.subrange(from as int, to as int)),
        None => None,
    }
}

/// The steps that draw row `y` of a frame: the left pane, the separator, the right pane.
pub open spec fn frame_row_ops(frame: Frame, previous: Option<Seq<Cell>>, y: int) -> Seq<Op> {
    let row = frame.rows[y];
    let line = display_coordinate(y as nat);
    let separator = frame.separator;
    segment_ops(line, 0, part(previous, 0, separator), row.subrange(0, separator as int))
        + segment_ops(
        line,
        separator,
        part(previous, separator, separator + 1),
        row.subrange(separator as int, separator as int + 1),
    ) + segment_ops(
        line,
        separator + 1,
        part(previous, separator + 1, frame.width),
        row.subrange(separator as int + 1, frame.width as int),
    )
}

/// The steps that draw the first `count` rows of a frame.
pub open spec fn frame_ops(frame: Frame, previous: Option<Frame>, count: nat) -> Seq<Op>
    decreases count,
{
    if count == 0 {
        Seq::empty()
    } else {
        let y = count - 1;
        frame_ops(frame, previous, y as nat) + frame_row_ops(frame, drawn_row(frame, previous, y), y)
    }
}

/// The row that is drawn already, if the frame before has the same shape.
pub open spec fn drawn_row(frame: Frame, previous: Option<Frame>, y: int) -> Option<Seq<Cell>> {
    match previous {
        Some(before) => if before.width == frame.width && before.height == frame.height
            && before.separator == frame.separator && before.rows.len() == frame.rows.len() {
            Some(before.rows[y])
        } else {
            None
        },
        None => None,
    }
}

impl Split {
    pub open spec fn wf(self) -> bool {
        &&& self.left.wf()
        &&& self.right.screen.wf()
        &&& self.cursor.row < usize::MAX
        &&& self.selection matches Some(active) ==> {
            &&& active.selection.anchor.row < usize::MAX
            &&& active.selection.cursor.row < usize::MAX
        }
        &&& self.frame matches Some(frame) ==> frame.wf()
    }

    // Parts
    // -----

    pub open spec fn laid(self, dims: SplitDims) -> Split {
        Split { left: self.left.ensured(dims.left_cols as nat), ..self }
    }

    pub open spec fn with_left(self, left: Viewer) -> Split {
        Split { left, ..self }
    }

    pub open spec fn with_cursor(self, cursor: SelectionPoint) -> Split {
        Split { cursor, ..self }
    }

    pub open spec fn with_status(self, status: Seq<char>) -> Split {
        Split { left: Viewer { status, ..self.left }, ..self }
    }

    pub open spec fn unfollowed(self) -> Split {
        Split { left: Viewer { follow: false, ..self.left }, ..self }
    }

    pub open spec fn without_selection(self) -> Split {
        Split { selection: None, ..self }
    }

    pub open spec fn showing(self, dims: SplitDims, row: usize) -> Split {
        self.with_left(self.left.showing(dims.rows as nat, row as nat))
    }

    /// The number of display rows on the left.
    pub open spec fn count(self) -> nat {
        self.left.display().len()
    }

    // The cursor on the left
    // ----------------------

    /// The cursor within the log, on a character.
    pub open spec fn normal_cursor(self) -> SelectionPoint {
        if self.count() == 0 {
            origin()
        } else {
            let row = if self.cursor.row < self.count() {
                self.cursor.row as int
            } else {
                self.count() - 1
            };
            point(row, normal_column(self.left.row_cells(row), self.cursor.col as int))
        }
    }

    /// Keeps the cursor within the log.
    pub open spec fn normalized(self, dims: SplitDims) -> Split {
        let s = self.laid(dims);
        s.with_cursor(s.normal_cursor())
    }

    /// Puts the cursor on the last row.
    pub open spec fn snapped(self, dims: SplitDims) -> Split {
        let s = self.laid(dims);
        s.with_cursor(
            if s.count() == 0 {
                origin()
            } else {
                point(s.count() - 1, first_column(s.left.row_cells(s.count() - 1)))
            },
        )
    }

    /// The cursor that a view starts with: on the last visible row that is not empty.
    pub open spec fn default_cursor(self, dims: SplitDims) -> SelectionPoint {
        if self.count() == 0 {
            origin()
        } else {
            let row = self.left.last_filled(
                self.left.top as int,
                self.left.view_end(dims.rows as nat) as int,
                self.left.top_row() as int,
            );
            point(row, first_column(self.left.row_cells(row)))
        }
    }

    /// Moves the cursor by rows.
    pub open spec fn row_moved(self, amount: int, dims: SplitDims) -> Split {
        let s = self.unfollowed().laid(dims);
        if s.count() == 0 {
            s.with_cursor(origin())
        } else {
            let c = s.normal_cursor();
            let row = clamped(c.row + amount, 0, s.count() - 1);
            s.with_cursor(
                point(row, normal_column(s.left.row_cells(row), c.col as int)),
            ).showing(dims, row as usize).with_status(Seq::empty())
        }
    }

    /// Moves the cursor by one character.
    pub open spec fn column_moved(self, forward: bool, dims: SplitDims) -> Split {
        let s = self.unfollowed().normalized(dims);
        let cells = s.left.row_cells(s.cursor.row as int);
        s.with_cursor(
            point(
                s.cursor.row as int,
                if forward {
                    column_behind(cells, s.cursor.col as int)
                } else {
                    column_before(cells, s.cursor.col as int)
                },
            ),
        ).with_status(Seq::empty())
    }

    /// Moves the cursor to the start or the end of its row.
    pub open spec fn line_edge(self, to_end: bool, dims: SplitDims) -> Split {
        let s = self.unfollowed().normalized(dims);
        s.with_cursor(
            point(
                s.cursor.row as int,
                if to_end {
                    last_column(s.left.row_cells(s.cursor.row as int))
                } else {
                    0
                },
            ),
        ).with_status(Seq::empty())
    }

    /// Moves the cursor by a word.
    pub open spec fn word_moved(self, motion: WordMotion, dims: SplitDims) -> Split {
        let s = self.unfollowed().laid(dims);
        if s.count() == 0 {
            s.with_cursor(origin())
        } else {
            let target = word_target(
                s.left.table(),
                s.count() as int,
                s.normal_cursor(),
                motion,
            );
            s.with_cursor(target).showing(dims, target.row).with_status(Seq::empty())
        }
    }

    /// Moves the view by rows; the cursor stays on its row as long as that is visible.
    pub open spec fn view_scrolled(self, amount: int, dims: SplitDims) -> Split {
        let s = self.unfollowed().laid(dims);
        if s.count() == 0 {
            s.with_cursor(origin())
        } else {
            let c = s.normal_cursor();
            let rows = height(dims.rows as nat);
            let top = clamped(
                s.left.top + amount,
                0,
                s.left.last_top(dims.rows as nat) as int,
            );
            let row = if c.row < top {
                top
            } else if c.row >= top + rows {
                top + rows - 1
            } else {
                c.row as int
            };
            s.with_left(s.left.with_top(top as nat)).with_cursor(
                point(row, normal_column(s.left.row_cells(row), c.col as int)),
            ).with_status(Seq::empty())
        }
    }

    /// The row at a position of the view.
    pub open spec fn position_row(self, position: ScreenPosition, dims: SplitDims) -> int {
        let top = self.left.top as int;
        let end = self.left.view_end(dims.rows as nat) as int;
        match position {
            ScreenPosition::Top => top,
            ScreenPosition::Middle => top + (end - top - 1) / 2,
            ScreenPosition::Bottom => end - 1,
        }
    }

    /// Moves the cursor to a row of the view.
    pub open spec fn screen_moved(self, position: ScreenPosition, dims: SplitDims) -> Split {
        let s = self.unfollowed().laid(dims);
        if s.count() == 0 {
            s.with_cursor(origin())
        } else if s.left.view_end(dims.rows as nat) <= s.left.top {
            s
        } else {
            let row = s.position_row(position, dims);
            s.with_cursor(point(row, first_column(s.left.row_cells(row)))).with_status(
                Seq::empty(),
            )
        }
    }

    /// The place at the start or the end of the log.
    pub open spec fn file_edge_point(self, to_end: bool) -> SelectionPoint {
        if to_end {
            point(self.count() - 1, last_column(self.left.row_cells(self.count() - 1)))
        } else {
            point(0, first_column(self.left.row_cells(0)))
        }
    }

    /// Moves the cursor to the start or the end of the log.
    pub open spec fn file_edge(self, to_end: bool, dims: SplitDims) -> Split {
        let s = self.unfollowed().laid(dims);
        if s.count() == 0 {
            s.with_cursor(origin())
        } else {
            let target = s.file_edge_point(to_end);
            s.with_cursor(target).showing(dims, target.row).with_status(Seq::empty())
        }
    }

    // Selections
    // ----------

    /// The place where a selection on the right starts: the last row that shows text.
    pub open spec fn right_start(self) -> SelectionPoint {
        let lines = self.right.screen.lines;
        let row = last_text_row(lines, lines.len() as int, lines.len() - 1);
        point(row, first_column(lines[row]))
    }

    /// Starts a selection in the pane with the focus.
    pub open spec fn selecting(self, mode: SelectionMode, dims: SplitDims) -> Split {
        let s = match self.focus {
            Focus::Left => self.unfollowed().normalized(dims),
            Focus::Right => self,
        };
        let start = match self.focus {
            Focus::Left => s.cursor,
            Focus::Right => self.right_start(),
        };
        Split {
            selection: Some(
                ActiveSelection {
                    pane: self.focus,
                    selection: Selection { mode, anchor: start, cursor: start },
                },
            ),
            ..s
        }.with_status(Seq::empty())
    }

    /// The layout is needed for a pane's rows on the left only.
    pub open spec fn pane_laid(self, pane: Focus, dims: SplitDims) -> Split {
        match pane {
            Focus::Left => self.laid(dims),
            Focus::Right => self,
        }
    }

    /// The number of rows in a pane.
    pub open spec fn pane_count(self, pane: Focus) -> nat {
        match pane {
            Focus::Left => self.count(),
            Focus::Right => self.right.screen.lines.len(),
        }
    }

    /// A row in a pane; rows beyond the end are empty.
    pub open spec fn pane_row(self, pane: Focus, row: int) -> Seq<Cell> {
        match pane {
            Focus::Left => self.left.row_cells(row),
            Focus::Right => if 0 <= row < self.right.screen.lines.len() {
                self.right.screen.lines[row]
            } else {
                Seq::empty()
            },
        }
    }

    /// The rows of a pane as a table.
    pub open spec fn pane_table(self, pane: Focus) -> Map<int, Seq<Cell>> {
        match pane {
            Focus::Left => self.left.table(),
            Focus::Right => screen_table(self.right.screen.lines),
        }
    }

    /// Moves the free end of the selection; on the left the cursor goes with it.
    pub open spec fn selection_to(self, active: ActiveSelection, to: SelectionPoint) -> Split {
        Split {
            selection: Some(
                ActiveSelection {
                    selection: Selection { cursor: to, ..active.selection },
                    ..active
                },
            ),
            cursor: match active.pane {
                Focus::Left => to,
                Focus::Right => self.cursor,
            },
            ..self
        }
    }

    /// Moves the free end of the selection, and the view on the left to show it.
    pub open spec fn selection_shown_to(
        self,
        active: ActiveSelection,
        to: SelectionPoint,
        dims: SplitDims,
    ) -> Split {
        let s = self.selection_to(active, to);
        match active.pane {
            Focus::Left => s.showing(dims, to.row),
            Focus::Right => s,
        }
    }

    pub open spec fn selection_row_moved(
        self,
        active: ActiveSelection,
        amount: int,
        dims: SplitDims,
    ) -> Split {
        let s = self.pane_laid(active.pane, dims);
        let count = s.pane_count(active.pane);
        if count == 0 {
            s
        } else {
            let row = clamped(active.selection.cursor.row + amount, 0, count - 1);
            s.selection_shown_to(
                active,
                point(
                    row,
                    normal_column(
                        s.pane_row(active.pane, row),
                        active.selection.cursor.col as int,
                    ),
                ),
                dims,
            )
        }
    }

    pub open spec fn selection_column_moved(
        self,
        active: ActiveSelection,
        forward: bool,
        dims: SplitDims,
    ) -> Split {
        let s = self.pane_laid(active.pane, dims);
        let cells = s.pane_row(active.pane, active.selection.cursor.row as int);
        s.selection_to(
            active,
            point(
                active.selection.cursor.row as int,
                if forward {
                    column_behind(cells, active.selection.cursor.col as int)
                } else {
                    column_before(cells, active.selection.cursor.col as int)
                },
            ),
        )
    }

    pub open spec fn selection_line_edge(
        self,
        active: ActiveSelection,
        to_end: bool,
        dims: SplitDims,
    ) -> Split {
        let s = self.pane_laid(active.pane, dims);
        s.selection_to(
            active,
            point(
                active.selection.cursor.row as int,
                if to_end {
                    last_column(s.pane_row(active.pane, active.selection.cursor.row as int))
                } else {
                    0
                },
            ),
        )
    }

    pub open spec fn selection_word_moved(
        self,
        active: ActiveSelection,
        motion: WordMotion,
        dims: SplitDims,
    ) -> Split {
        let s = self.pane_laid(active.pane, dims);
        let count = s.pane_count(active.pane);
        if count == 0 {
            s
        } else {
            s.selection_shown_to(
                active,
                word_target(
                    s.pane_table(active.pane),
                    count as int,
                    active.selection.cursor,
                    motion,
                ),
                dims,
            )
        }
    }

    pub open spec fn selection_file_edge(
        self,
        active: ActiveSelection,
        to_end: bool,
        dims: SplitDims,
    ) -> Split {
        let s = self.pane_laid(active.pane, dims);
        let count = s.pane_count(active.pane);
        if count == 0 {
            s
        } else {
            let row = if to_end {
                count - 1
            } else {
                0
            };
            let cells = s.pane_row(active.pane, row);
            s.selection_shown_to(
                active,
                point(
                    row,
                    if to_end {
                        last_column(cells)
                    } else {
                        first_column(cells)
                    },
                ),
                dims,
            )
        }
    }

    /// The row at a position of a pane: of the view on the left, of the screen on the right.
    pub open spec fn pane_position_row(
        self,
        pane: Focus,
        position: ScreenPosition,
        dims: SplitDims,
    ) -> int {
        match pane {
            Focus::Left => self.position_row(position, dims),
            Focus::Right => {
                let count = self.right.screen.lines.len();
                match position {
                    ScreenPosition::Top => 0,
                    ScreenPosition::Middle => (count - 1) / 2,
                    ScreenPosition::Bottom => count - 1,
                }
            },
        }
    }

    pub open spec fn selection_screen_moved(
        self,
        active: ActiveSelection,
        position: ScreenPosition,
        dims: SplitDims,
    ) -> Split {
        let s = self.pane_laid(active.pane, dims);
        if s.pane_count(active.pane) == 0 {
            s
        } else if active.pane == Focus::Left && s.left.view_end(dims.rows as nat) <= s.left.top {
            s
        } else {
            let row = s.pane_position_row(active.pane, position, dims);
            s.selection_to(active, point(row, first_column(s.pane_row(active.pane, row))))
        }
    }

    /// Moves the view on the left, with the free end of the selection in it as far as
    /// needed; on the right, moves the free end.
    pub open spec fn selection_view_scrolled(
        self,
        active: ActiveSelection,
        amount: int,
        dims: SplitDims,
    ) -> Split {
        match active.pane {
            Focus::Left => {
                let s = self.view_scrolled(amount, dims);
                s.selection_to(active, s.cursor)
            },
            Focus::Right => self.selection_row_moved(active, amount, dims),
        }
    }

    /// The text of the selection.
    pub open spec fn selection_copied(self, active: ActiveSelection, dims: SplitDims) -> Seq<char> {
        let s = self.pane_laid(active.pane, dims);
        selected_text(active.selection, s.pane_table(active.pane))
    }

    /// What came of putting the selection into the clipboard.
    pub open spec fn copy_reported(self, error: Option<Seq<char>>) -> Split {
        match self.selection {
            None => self,
            Some(active) => match error {
                None => {
                    let lines = active.selection.lines();
                    self.without_selection().with_status(
                        "Copied "@ + decimal(lines) + " displayed line"@ + plural(lines)
                            + " from "@ + pane_name(active.pane) + " pane"@,
                    )
                },
                Some(message) => self.with_status("Clipboard copy failed: "@ + message),
            },
        }
    }

    // Commands
    // --------

    /// Carries out a command on the left.
    #[verifier::opaque]
    pub open spec fn left_done(self, command: Command, dims: SplitDims) -> (Split, Act) {
        match command {
            Command::Select(mode) => (self.selecting(mode, dims), Act::Continue),
            Command::Paste => (self, Act::Paste),
            Command::QuitHint => (
                self.with_status("Use Ctrl-g q to quit logsplit"@),
                Act::Continue,
            ),
            Command::Row { forward } => (self.row_moved(signed(forward, 1), dims), Act::Continue),
            Command::View { forward } => (
                self.view_scrolled(signed(forward, 1), dims),
                Act::Continue,
            ),
            Command::Column { forward } => (self.column_moved(forward, dims), Act::Continue),
            Command::Word(motion) => (self.word_moved(motion, dims), Act::Continue),
            Command::Page { forward } => (
                self.row_moved(signed(forward, height(dims.rows as nat)), dims),
                Act::Continue,
            ),
            Command::HalfPage { forward } => (
                self.row_moved(signed(forward, half_height(dims.rows as nat)), dims),
                Act::Continue,
            ),
            Command::LineEdge { to_end } => (self.line_edge(to_end, dims), Act::Continue),
            Command::FileEdge { to_end } => (self.file_edge(to_end, dims), Act::Continue),
            Command::Screen(position) => (self.screen_moved(position, dims), Act::Continue),
            Command::Follow => (self.following(dims), Act::Continue),
            Command::StopFollow => (
                self.unfollowed().with_status("Follow stopped"@),
                Act::Continue,
            ),
            Command::Reload => (self, Act::Reload),
            Command::Search => (self, Act::Prompt),
            Command::Repeat { forward } => (self.search_repeated(forward, dims), Act::Continue),
            Command::Help => (self.with_status(help_text()), Act::Continue),
            _ => (self, Act::Continue),
        }
    }

    /// Follows the log from now on.
    pub open spec fn following(self, dims: SplitDims) -> Split {
        self.with_left(
            Viewer { follow: true, ..self.left }.at_end(dims.rows as nat, dims.left_cols as nat),
        ).snapped(dims).with_status("Follow mode"@)
    }

    /// Searches again, and puts the cursor on the top row.
    pub open spec fn search_repeated(self, forward: bool, dims: SplitDims) -> Split {
        let s = self.with_left(
            self.left.search_repeated(forward, dims.rows as nat, dims.left_cols as nat),
        );
        s.with_cursor(point(s.left.top as int, 0)).normalized(dims)
    }

    /// Searches for a text that has been typed; an empty one only clears the status.
    pub open spec fn searched(self, term: Seq<char>, dims: SplitDims) -> Split {
        let start = Split { frame: None, ..self.with_status(Seq::empty()) };
        if term.len() == 0 {
            start
        } else {
            let v = Viewer {
                search_term: Some(term),
                last_search_forward: true,
                ..start.left
            };
            let s = start.with_left(v.searched(term, true, dims.rows as nat, dims.left_cols as nat));
            if v.hit(term, true, dims.left_cols as nat) is Some {
                s.with_cursor(point(s.left.top as int, 0)).normalized(dims).with_status("/"@ + term)
            } else {
                s.with_status("Pattern not found: "@ + term)
            }
        }
    }

    /// Carries out a command on the selection.
    #[verifier::opaque]
    pub open spec fn selection_done(
        self,
        active: ActiveSelection,
        command: Command,
        dims: SplitDims,
    ) -> (Split, Act) {
        match command {
            Command::Cancel => (
                self.without_selection().with_status("Selection cleared"@),
                Act::Continue,
            ),
            Command::Copy => (
                self.pane_laid(active.pane, dims),
                Act::Copy(self.selection_copied(active, dims)),
            ),
            Command::Row { forward } => (
                self.selection_row_moved(active, signed(forward, 1), dims),
                Act::Continue,
            ),
            Command::View { forward } => (
                self.selection_view_scrolled(active, signed(forward, 1), dims),
                Act::Continue,
            ),
            Command::Column { forward } => (
                self.selection_column_moved(active, forward, dims),
                Act::Continue,
            ),
            Command::Word(motion) => (
                self.selection_word_moved(active, motion, dims),
                Act::Continue,
            ),
            Command::Page { forward } => (
                self.selection_row_moved(active, signed(forward, height(dims.rows as nat)), dims),
                Act::Continue,
            ),
            Command::HalfPage { forward } => (
                self.selection_row_moved(
                    active,
                    signed(forward, half_height(dims.rows as nat)),
                    dims,
                ),
                Act::Continue,
            ),
            Command::LineEdge { to_end } => (
                self.selection_line_edge(active, to_end, dims),
                Act::Continue,
            ),
            Command::FileEdge { to_end } => (
                self.selection_file_edge(active, to_end, dims),
                Act::Continue,
            ),
            Command::Screen(position) => (
                self.selection_screen_moved(active, position, dims),
                Act::Continue,
            ),
            _ => (self, Act::Continue),
        }
    }

    /// Takes in a key behind the pane prefix.
    pub open spec fn switched(self, key: Key) -> Split {
        let s = Split { switch_prefix_pending: false, ..self };
        if key.plain('h') {
            Split { selection: None, focus: Focus::Left, ..s }
        } else if key.plain('l') {
            Split { selection: None, focus: Focus::Right, ..s }
        } else if key.code == KeyCode::Esc {
            s
        } else {
            s.with_status("Ctrl-w h/l switches panes"@)
        }
    }

    /// Takes in a key behind the prefix for actions in both panes.
    pub open spec fn prefixed(self, key: Key, dims: SplitDims) -> (Split, Act) {
        let s = Split { prefix_pending: false, ..self };
        if key.plain('v') {
            (s.selecting(SelectionMode::Character, dims), Act::Continue)
        } else if key.types('V') {
            (s.selecting(SelectionMode::Line, dims), Act::Continue)
        } else if key.types('p') || key.types('P') {
            (s, Act::Paste)
        } else if key.types('q') {
            (s, Act::Quit)
        } else {
            (s, Act::Continue)
        }
    }

    /// Takes in a key.
    pub open spec fn key_done(self, key: Key, dims: SplitDims) -> (Split, Act) {
        if self.switch_prefix_pending {
            (self.switched(key), Act::Continue)
        } else if self.prefix_pending {
            self.prefixed(key, dims)
        } else if key.control('w') {
            (Split { switch_prefix_pending: true, ..self }, Act::Continue)
        } else if key.control('g') {
            (Split { prefix_pending: true, ..self }, Act::Continue)
        } else {
            match self.selection {
                Some(active) => self.selection_done(active, selection_binding(key), dims),
                None => match self.focus {
                    Focus::Left => self.left_done(left_binding(key), dims),
                    Focus::Right => (
                        self,
                        match key_bytes(key) {
                            Some(bytes) => if self.right.alive {
                                Act::Send(bytes)
                            } else {
                                Act::Continue
                            },
                            None => Act::Continue,
                        },
                    ),
                },
            }
        }
    }

    // The clipboard
    // -------------

    /// What is done with the clipboard's text: the status, and the bytes to send.
    pub open spec fn pasting(self, clipboard: Result<Seq<char>, Seq<char>>) -> (Split, Option<
        Seq<u8>,
    >) {
        match clipboard {
            Ok(text) => if text.len() == 0 {
                (self.with_status("Clipboard is empty"@), None)
            } else if !self.right.alive {
                (self.with_status("Right pane is not running"@), None)
            } else {
                (self, Some(encode_utf8(text)))
            },
            Err(message) => (self.with_status("Clipboard paste failed: "@ + message), None),
        }
    }

    /// What came of sending pasted bytes.
    pub open spec fn paste_reported(self, count: nat, error: Option<Seq<char>>) -> Split {
        self.with_status(
            match error {
                None => "Pasted "@ + decimal(count) + " byte"@ + plural(count)
                    + " into right pane"@,
                Some(message) => "Paste failed: "@ + message,
            },
        )
    }

    // The log
    // -------

    /// The cursor goes with the end of a log that is followed, and otherwise stays within
    /// the log.
    pub open spec fn cursor_kept(self, dims: SplitDims) -> Split {
        if self.left.follow {
            self.snapped(dims)
        } else {
            self.normalized(dims)
        }
    }

    /// Takes in an update of the log.
    pub open spec fn updated(self, update: LogUpdate, dims: SplitDims) -> Split {
        self.with_left(
            self.left.updated(update, dims.rows as nat, dims.left_cols as nat),
        ).cursor_kept(dims)
    }

    /// Shows the log as it has been read again, for a terminal as large as the right pane.
    pub open spec fn log_reread(self, recording: Recording, dims: SplitDims) -> Split {
        let v = self.left.resized(
            dims.rows as nat,
            dims.right_cols as nat,
            dims.rows as nat,
            dims.left_cols as nat,
            recording,
        );
        if v.follow {
            self.with_left(v.at_end(dims.rows as nat, dims.left_cols as nat)).snapped(dims)
        } else {
            let s = self.with_left(v).normalized(dims);
            s.showing(dims, s.cursor.row)
        }
    }

    /// Shows the log as it has been read again on request.
    pub open spec fn reloaded(self, recording: Recording, dims: SplitDims) -> Split {
        Split {
            frame: None,
            ..self.log_reread(recording, dims).with_status("Reloaded"@)
        }
    }

    /// Takes in a new size of the display.
    pub open spec fn display_resized(self, recording: Recording, dims: SplitDims) -> Split {
        let s = self.log_reread(recording, dims);
        let t = Split {
            right: Program {
                screen: s.right.screen.resize(dims.rows as nat, dims.right_cols as nat),
                ..s.right
            },
            selection: None,
            frame: None,
            ..s
        };
        if self.selection is Some {
            t.with_status("Selection cleared after resize"@)
        } else {
            t
        }
    }

    // Drawing
    // -------

    /// The status line while something is selected.
    pub open spec fn status_override(self) -> Option<Seq<char>> {
        match self.selection {
            Some(active) => Some(
                mode_label(active.selection.mode) + " "@ + pane_name(active.pane)
                    + " pane  h/j/k/l move  w/e/b word  H/M/L screen  y copy  Esc cancel"@,
            ),
            None => None,
        }
    }

    /// The separator's cell on line `y`. On the first line it tells what is pending, or
    /// else which pane has the focus.
    pub open spec fn separator_cell(self, y: int) -> Cell {
        Cell {
            ch: if y != 0 {
                '|'
            } else if self.switch_prefix_pending {
                'w'
            } else if self.prefix_pending {
                '*'
            } else {
                match self.focus {
                    Focus::Left => '<',
                    Focus::Right => '>',
                }
            },
            style: Style {
                fg: Some(
                    match self.focus {
                        Focus::Left => 11u8,
                        Focus::Right => 14u8,
                    },
                ),
                ..plain_style()
            },
            wide_cont: false,
        }
    }

    /// A row with what is selected in a pane highlighted.
    pub open spec fn highlighted_row(self, pane: Focus, row: int, cells: Seq<Cell>) -> Seq<Cell> {
        match self.selection {
            Some(active) => if active.pane == pane {
                highlighted(cells, row, active.selection)
            } else {
                cells
            },
            None => cells,
        }
    }

    /// Line `y` of the left pane, with the selection and the cursor.
    pub open spec fn left_line(self, y: int) -> Seq<Cell> {
        let row = self.left.top + y;
        let cells = self.highlighted_row(Focus::Left, row, self.left.row_cells(row));
        if row == self.cursor.row {
            with_cursor_shown(cells, self.cursor.col as int, self.focus == Focus::Left)
        } else {
            cells
        }
    }

    /// The status line of the left pane.
    pub open spec fn left_status(self, dims: SplitDims) -> Seq<Cell> {
        status_cells(
            self.left.status_line(
                dims.rows as nat,
                dims.left_cols as nat,
                self.status_override(),
            ),
            dims.left_cols as nat,
        )
    }

    /// Line `y` of the display, for a view whose layout is up to date.
    pub open spec fn line(self, dims: SplitDims, y: int) -> Seq<Cell> {
        let left_cols = dims.left_cols as nat;
        let blank = blank_row(dims.width(), plain_style());
        let with_log = if y < height(dims.rows as nat) {
            laid_over(blank, 0, self.left_line(y), left_cols)
        } else {
            blank
        };
        let with_status = if y == dims.rows - 1 {
            laid_over(with_log, 0, self.left_status(dims), left_cols)
        } else {
            with_log
        };
        let with_separator = with_status.update(left_cols as int, self.separator_cell(y));
        if y < self.right.screen.lines.len() {
            laid_over(
                with_separator,
                left_cols + 1,
                self.highlighted_row(Focus::Right, y, self.right.screen.lines[y]),
                dims.right_cols as nat,
            )
        } else {
            with_separator
        }
    }

    /// What the display shows, for a view whose layout is up to date.
    pub open spec fn picture(self, dims: SplitDims) -> Frame {
        Frame {
            width: dims.width(),
            height: dims.rows as nat,
            separator: dims.separator_col as nat,
            rows: Seq::new(dims.rows as nat, |y: int| self.line(dims, y)),
        }
    }

    /// The view with its layout up to date, and the top and the cursor within the log.
    pub open spec fn settled(self, dims: SplitDims) -> Split {
        self.with_left(
            self.left.bounded(dims.rows as nat, dims.left_cols as nat),
        ).normalized(dims)
    }

    /// The view after it has been drawn.
    pub open spec fn drawn(self, dims: SplitDims) -> Split {
        let s = self.settled(dims);
        Split { frame: Some(s.picture(dims)), ..s }
    }

    /// The steps that bring the display up to date.
    pub open spec fn drawing(self, dims: SplitDims) -> Seq<Op> {
        let frame = self.settled(dims).picture(dims);
        frame_ops(frame, self.frame, frame.height)
    }
}

/// The steps that show a line that is being typed in the left pane's status line.
pub open spec fn prompt_ops(prompt: Seq<char>, line: Seq<char>, dims: SplitDims) -> Seq<Op> {
    seq![
        Op::MoveTo { x: 0, y: display_coordinate((dims.rows - 1) as nat) },
        Op::Reset,
        Op::Reverse,
        Op::Print(fitted(prompt + line, dims.left_cols as nat)),
        Op::Reset,
    ]
}

// Laws
// ----

/// Keys with the program in focus reach the program and change nothing else, unless they
/// are one of the two prefixes, follow a prefix, or move a selection.
pub proof fn keys_reach_the_program(view: Split, key: Key, dims: SplitDims)
    requires
        view.focus == Focus::Right,
        view.right.alive,
        !view.switch_prefix_pending,
        !view.prefix_pending,
        view.selection is None,
        !key.control('w'),
        !key.control('g'),
    ensures
        view.key_done(key, dims).0 == view,
        key_bytes(key) matches Some(bytes) ==> view.key_done(key, dims).1 == Act::Send(bytes),
        key_bytes(key) is None ==> view.key_done(key, dims).1 == Act::Continue,
{
}

/// The prefix for panes, and a letter behind it, choose the pane with the focus whatever
/// the state was, and send nothing to the program.
pub proof fn prefix_switches_panes(view: Split, prefix: Key, key: Key, dims: SplitDims)
    requires
        !view.switch_prefix_pending,
        !view.prefix_pending,
        prefix.control('w'),
        key.plain('h') || key.plain('l'),
    ensures
        ({
            let (pending, first) = view.key_done(prefix, dims);
            let (done, second) = pending.key_done(key, dims);
            &&& first == Act::Continue
            &&& second == Act::Continue
            &&& done.focus == (if key.plain('h') {
                Focus::Left
            } else {
                Focus::Right
            })
            &&& done.selection is None
            &&& !done.switch_prefix_pending
            &&& done.left == view.left
            &&& done.right == view.right
        }),
{
}

#[verifier::rlimit(40)]
proof fn lemma_cursor_keys(view: Split, command: Command, dims: SplitDims)
    ensures
        view.left_done(command, dims).1 != Act::Quit,
        !(view.left_done(command, dims).1 is Send),
        view.left_done(command, dims).0.right == view.right,
{
    reveal(Split::left_done);
    match command {
        Command::Select(mode) => {
            assert(view.selecting(mode, dims).right == view.right);
        },
        Command::Row { forward } => {
            assert(view.row_moved(signed(forward, 1), dims).right == view.right);
        },
        Command::Page { forward } => {
            let amount = signed(forward, height(dims.rows as nat));
            assert(view.row_moved(amount, dims).right == view.right);
        },
        Command::HalfPage { forward } => {
            let amount = signed(forward, half_height(dims.rows as nat));
            assert(view.row_moved(amount, dims).right == view.right);
        },
        _ => {},
    }
}

#[verifier::rlimit(40)]
proof fn lemma_selection_keys(
    view: Split,
    active: ActiveSelection,
    command: Command,
    dims: SplitDims,
)
    ensures
        view.selection_done(active, command, dims).1 != Act::Quit,
        !(view.selection_done(active, command, dims).1 is Send),
        view.selection_done(active, command, dims).0.right == view.right,
{
    reveal(Split::selection_done);
    match command {
        Command::Row { forward } => {
            assert(view.selection_row_moved(active, signed(forward, 1), dims).right == view.right);
        },
        Command::Page { forward } => {
            let amount = signed(forward, height(dims.rows as nat));
            assert(view.selection_row_moved(active, amount, dims).right == view.right);
        },
        Command::HalfPage { forward } => {
            let amount = signed(forward, half_height(dims.rows as nat));
            assert(view.selection_row_moved(active, amount, dims).right == view.right);
        },
        _ => {},
    }
}

/// The only way to quit is `q` behind the prefix for actions, and no key changes what the
/// program shows.
pub proof fn only_the_prefix_quits(view: Split, key: Key, dims: SplitDims)
    ensures
        view.key_done(key, dims).1 == Act::Quit <==> !view.switch_prefix_pending
            && view.prefix_pending && key.types('q'),
        view.key_done(key, dims).0.right == view.right,
{
    lemma_cursor_keys(view, left_binding(key), dims);
    if let Some(active) = view.selection {
        lemma_selection_keys(view, active, selection_binding(key), dims);
    }
}

/// Keys with the log in focus, and keys that move a selection, send nothing to the program.
pub proof fn log_keys_send_nothing(view: Split, key: Key, dims: SplitDims)
    requires
        view.focus == Focus::Left || view.selection is Some,
    ensures
        !(view.key_done(key, dims).1 is Send),
        view.key_done(key, dims).0.right == view.right,
{
    lemma_cursor_keys(view, left_binding(key), dims);
    if let Some(active) = view.selection {
        lemma_selection_keys(view, active, selection_binding(key), dims);
    }
}

/// Scrolling the view keeps the cursor on its row as long as the view shows that row, and
/// always leaves it on a row that the view shows.
pub proof fn scrolling_keeps_the_position(view: Split, amount: int, dims: SplitDims)
    requires
        view.wf(),
        view.laid(dims).count() <= usize::MAX,
    ensures
        ({
            let row = view.laid(dims).normal_cursor().row;
            let scrolled = view.view_scrolled(amount, dims);
            let top = scrolled.left.top;
            let end = top + height(dims.rows as nat);
            &&& top <= row < end ==> scrolled.cursor.row == row
            &&& top <= scrolled.cursor.row < end
        }),
{
    every_line_is_displayed(view.left, dims.left_cols as nat);
    let layout = view.laid(dims).left.layout->0;
    let first = view.left.screen().rendered_rows()[0];
    assert(layout.shows_line(0, first));
    assert(layout.display.subrange(layout.first[0] as int, layout.line_end(0) as int).len() > 0);
    reveal(Viewer::ensured);
    let s = view.unfollowed().laid(dims);
    assert(s.left.layout == view.laid(dims).left.layout);
    assert(s.normal_cursor() == view.laid(dims).normal_cursor());
}

proof fn lemma_repeat_keys(view: Split, forward: bool, dims: SplitDims)
    ensures
        view.left_done(Command::Repeat { forward }, dims) == (
            view.search_repeated(forward, dims),
            Act::Continue,
        ),
        view.search_repeated(forward, dims).left.top == view.left.search_repeated(
            forward,
            dims.rows as nat,
            dims.left_cols as nat,
        ).top,
{
    reveal(Split::left_done);
    reveal(Viewer::ensured);
}

/// In the log pane, `n` searches forward again and `N` backward, whichever way the searches
/// before have gone.
pub proof fn repeat_keys_keep_their_direction(view: Split, key: Key, dims: SplitDims)
    requires
        view.focus == Focus::Left,
        !view.switch_prefix_pending,
        !view.prefix_pending,
        view.selection is None,
        key.plain('n') || key.types('N'),
    ensures
        view.key_done(key, dims) == (
            view.search_repeated(key.plain('n'), dims),
            Act::Continue,
        ),
        view.key_done(key, dims).0.left.top == view.left.search_repeated(
            key.plain('n'),
            dims.rows as nat,
            dims.left_cols as nat,
        ).top,
{
    lemma_repeat_keys(view, key.plain('n'), dims);
    assert(left_binding(key) == Command::Repeat { forward: key.plain('n') });
}

/// A second drawing in the same state draws nothing: the display is up to date.
pub proof fn drawing_twice_draws_nothing(view: Split, dims: SplitDims)
    requires
        view.wf(),
        dims.wf(),
    ensures
        view.drawn(dims).drawing(dims) == Seq::<Op>::empty(),
{
    let s = view.settled(dims);
    let again = view.drawn(dims).settled(dims);
    lemma_settled_twice(view, dims);
    assert(again == Split { frame: view.drawn(dims).frame, ..s });
    let frame = s.picture(dims);
    assert forall|y: int| 0 <= y < dims.rows implies again.line(dims, y) == s.line(dims, y) by {
        lemma_frame_is_not_shown(s, view.drawn(dims).frame, dims, y);
    }
    assert(again.picture(dims).rows =~= frame.rows);
    lemma_same_frame(frame, frame.height);
}

proof fn lemma_settled_twice(view: Split, dims: SplitDims)
    ensures
        view.drawn(dims).settled(dims) == (Split {
            frame: view.drawn(dims).frame,
            ..view.settled(dims)
        }),
{
    let s = view.settled(dims);
    crate::viewer::settling_settles(view.left, dims.rows as nat, dims.left_cols as nat);
    let d = view.drawn(dims);
    assert(d.left == s.left);
    assert(s.left == view.left.bounded(dims.rows as nat, dims.left_cols as nat));
    assert(d.settled(dims).left == s.left);
    if s.count() > 0 {
        crate::selection::normal_column_settles(
            s.left.row_cells(s.cursor.row as int),
            view.cursor.col as int,
        );
    }
}

proof fn lemma_frame_is_not_shown(view: Split, frame: Option<Frame>, dims: SplitDims, y: int)
    ensures
        (Split { frame, ..view }).line(dims, y) == view.line(dims, y),
{
    let other = Split { frame, ..view };
    assert(other.left_line(y) == view.left_line(y));
    assert(other.left_status(dims) == view.left_status(dims));
    assert(other.separator_cell(y) == view.separator_cell(y));
}

proof fn lemma_same_frame(frame: Frame, count: nat)
    requires
        count <= frame.rows.len(),
    ensures
        frame_ops(frame, Some(frame), count) == Seq::<Op>::empty(),
    decreases count,
{
    if count > 0 {
        lemma_same_frame(frame, (count - 1) as nat);
        let y = count - 1;
        assert(frame_row_ops(frame, drawn_row(frame, Some(frame), y), y) =~= Seq::<Op>::empty());
    }
}

/// Copying to the clipboard ends the selection if it succeeds, and keeps it otherwise; either
/// way the status tells, and nothing else changes.
pub proof fn copying_ends_the_selection(view: Split, error: Option<Seq<char>>)
    requires
        view.selection is Some,
    ensures
        ({
            let after = view.copy_reported(error);
            &&& error is None ==> after.selection is None
            &&& error is Some ==> after.selection == view.selection
            &&& after.left.status.len() > 0
            &&& after == (Split {
                selection: after.selection,
                left: Viewer { status: after.left.status, ..view.left },
                ..view
            })
        }),
{
    reveal_strlit("Copied ");
    reveal_strlit("Clipboard copy failed: ");
}

/// Pasting sends the clipboard's text to the program as it is, if there is any and the program
/// runs; otherwise it sends nothing and says why.
pub proof fn pasting_sends_the_text(view: Split, clipboard: Result<Seq<char>, Seq<char>>)
    ensures
        ({
            let (after, sent) = view.pasting(clipboard);
            &&& sent is Some <==> clipboard is Ok && clipboard->Ok_0.len() > 0 && view.right.alive
            &&& sent matches Some(bytes) ==> crate::utf8::decoded(bytes).text == clipboard->Ok_0
                && after == view
            &&& sent is None ==> after.left.status.len() > 0
            &&& after == (Split {
                left: Viewer { status: after.left.status, ..view.left },
                ..view
            })
        }),
{
    if let Ok(text) = clipboard {
        crate::utf8::encoded_text_is_decoded(text);
    }
    reveal_strlit("Clipboard is empty");
    reveal_strlit("Right pane is not running");
    reveal_strlit("Clipboard paste failed: ");
}

/// The cursor keeps within the log when the log changes: on the last row if the log is
/// followed, otherwise on its own row, or on the last one if its row is gone.
pub proof fn the_cursor_keeps_within_the_log(view: Split, dims: SplitDims)
    requires
        view.wf(),
        view.laid(dims).count() <= usize::MAX,
    ensures
        ({
            let after = view.cursor_kept(dims);
            let count = view.laid(dims).count();
            &&& after.cursor.row < count
            &&& view.left.follow ==> after.cursor.row == count - 1
            &&& !view.left.follow && view.cursor.row < count ==> after.cursor.row
                == view.cursor.row
            &&& !view.left.follow && view.cursor.row >= count ==> after.cursor.row == count - 1
            &&& after.left == view.laid(dims).left
            &&& after.right == view.right
        }),
{
    crate::viewer::a_log_has_rows(view.left, dims.left_cols as nat);
}

/// A new size of the display reaches the program's terminal, ends the selection, and makes
/// the next drawing draw everything.
pub proof fn a_new_size_reaches_the_program(view: Split, recording: Recording, dims: SplitDims)
    ensures
        ({
            let after = view.display_resized(recording, dims);
            &&& after.right.screen == view.right.screen.resize(
                dims.rows as nat,
                dims.right_cols as nat,
            )
            &&& after.right.alive == view.right.alive
            &&& after.right.pending == view.right.pending
            &&& after.selection is None
            &&& after.frame is None
            &&& after.focus == view.focus
        }),
{
    reveal(Viewer::resized);
    reveal(Viewer::ensured);
}

/// What the program writes is decoded and shown on its terminal, however it is cut into
/// pieces; when it ends, it is not alive any more.
pub proof fn output_reaches_the_terminal(program: Program, first: Seq<u8>, second: Seq<u8>)
    ensures
        program.wrote(first).wrote(second) == program.wrote(first + second),
        program.wrote(first).alive == program.alive,
        !program.ended().alive,
        program.pending.len() == 0 ==> program.wrote(first).screen == program.screen.feed(
            crate::utf8::decoded(first).text,
        ),
{
    crate::utf8::decoding_in_parts(program.pending + first, second);
    assert(program.pending + first + second =~= program.pending + (first + second));
    crate::screen::feed_in_parts(
        program.screen,
        crate::utf8::decoded(program.pending + first).text,
        crate::utf8::decoded(crate::utf8::decoded(program.pending + first).rest + second).text,
    );
    if program.pending.len() == 0 {
        assert(program.pending + first =~= first);
    }
}

/// The separator tells on the first line which pane has the focus, or which prefix is
/// pending; on the other lines it is a bar. Its colour tells the focus on every line.
pub proof fn the_separator_tells_the_focus(view: Split, y: int)
    ensures
        ({
            let cell = view.separator_cell(y);
            let right = Split { focus: Focus::Right, ..view };
            let left = Split { focus: Focus::Left, ..view };
            &&& y != 0 ==> cell.ch == '|'
            &&& y == 0 && view.switch_prefix_pending ==> cell.ch == 'w'
            &&& y == 0 && !view.switch_prefix_pending && view.prefix_pending ==> cell.ch == '*'
            &&& y == 0 && !view.switch_prefix_pending && !view.prefix_pending ==> cell.ch == (
            if view.focus == Focus::Left {
                '<'
            } else {
                '>'
            })
            &&& !cell.wide_cont
            &&& right.separator_cell(y).style != left.separator_cell(y).style
        }),
{
}

/// The cursor of the log pane is shown by the background of the character that it is on, and
/// of nothing else; the text stays.
pub proof fn the_cursor_is_shown(row: Seq<Cell>, col: int, focused: bool, i: int)
    requires
        crate::selection::row_is_whole(row),
        0 <= col < row.len(),
        0 <= i < row.len(),
    ensures
        ({
            let shown = with_cursor_shown(row, col, focused);
            let at = crate::selection::home(row, col);
            &&& shown.len() == row.len()
            &&& shown[i].ch == row[i].ch
            &&& shown[i].wide_cont == row[i].wide_cont
            &&& crate::selection::home(row, i) != at ==> shown[i] == row[i]
            &&& crate::selection::home(row, i) == at ==> shown[i].style.bg is Some
                && shown[i].style.bold == focused && !shown[i].style.reverse
                && shown[i].style.fg == row[at].style.fg
            &&& with_cursor_shown(row, col, true)[at].style.bg != with_cursor_shown(
                row,
                col,
                false,
            )[at].style.bg
        }),
{
    crate::selection::lemma_home(row, col);
    let at = crate::selection::home(row, col);
    if at + 1 < row.len() {
        assert(!(row[at].wide_cont && row[at + 1].wide_cont));
    }
    if i > 0 && row[i].wide_cont {
        assert(!row[i - 1].wide_cont);
    }
}

/// Searching for a text that has been typed goes forward, as repeating a search does, and puts
/// the cursor on the top row if it finds anything; otherwise the cursor stays.
pub proof fn typed_searches_go_forward(view: Split, term: Seq<char>, dims: SplitDims)
    requires
        term.len() > 0,
    ensures
        ({
            let after = view.searched(term, dims);
            let turned = Viewer { search_term: Some(term), ..view.left };
            let found = turned.search_repeated(true, dims.rows as nat, dims.left_cols as nat);
            &&& after.left.top == found.top
            &&& after.left.follow == found.follow
            &&& after.left.status == found.status
            &&& after.left.search_term == Some(term)
            &&& after.frame is None
            &&& after.right == view.right
            &&& turned.hit(term, true, dims.left_cols as nat) is None ==> after.cursor
                == view.cursor
        }),
{
    reveal(Viewer::search_repeated);
    reveal(Viewer::searched);
    reveal(Viewer::ensured);
}

/// A view starts with its cursor on the last row in view that is not empty.
pub proof fn the_cursor_starts_on_the_last_filled_row(view: Split, dims: SplitDims, row: int)
    requires
        view.left.layout is Some,
        view.count() <= usize::MAX,
        dims.rows >= 2,
        view.left.top <= row < view.left.top + dims.rows - 1,
        row < view.count(),
        view.left.row_cells(row).len() > 0,
    ensures
        ({
            let cursor = view.default_cursor(dims);
            &&& row <= cursor.row < view.left.top + dims.rows - 1
            &&& cursor.row < view.count()
            &&& view.left.row_cells(cursor.row as int).len() > 0
            &&& cursor.col == first_column(view.left.row_cells(cursor.row as int)) as usize
        }),
{
    lemma_last_filled(
        view.left,
        view.left.top as int,
        view.left.view_end(dims.rows as nat) as int,
        view.left.top_row() as int,
        row,
    );
}

proof fn lemma_last_filled(viewer: Viewer, from: int, to: int, default: int, row: int)
    requires
        from <= row < to,
        viewer.row_cells(row).len() > 0,
    ensures
        row <= viewer.last_filled(from, to, default) < to,
        viewer.row_cells(viewer.last_filled(from, to, default)).len() > 0,
    decreases to - from,
{
    if viewer.row_cells(to - 1).len() == 0 {
        lemma_last_filled(viewer, from, to - 1, default, row);
    }
}

/// After a copy the status tells how many rows the selection touches, and in which pane.
pub proof fn copied_rows_are_counted(view: Split, active: ActiveSelection)
    requires
        view.selection == Some(active),
    ensures
        ({
            let status = view.copy_reported(None).left.status;
            let (one, other) = (active.selection.anchor.row, active.selection.cursor.row);
            let n = if one <= other {
                (other - one + 1) as nat
            } else {
                (one - other + 1) as nat
            };
            status == "Copied "@ + decimal(n) + " displayed line"@ + (if one == other {
                ""@
            } else {
                "s"@
            }) + " from "@ + (if active.pane == Focus::Left {
                "left"@
            } else {
                "right"@
            }) + " pane"@
        }),
{
}

/// A log that is read again on request is replayed on a terminal as large as the right pane;
/// the program and the selection stay, and the next drawing draws everything.
pub proof fn a_log_is_read_again(view: Split, recording: Recording, dims: SplitDims)
    requires
        dims.rows > 0,
        dims.right_cols > 0,
    ensures
        ({
            let after = view.reloaded(recording, dims);
            &&& after.left.replay == Replay::of(
                recording.bytes@,
                recording.events@,
                dims.rows as nat,
                dims.right_cols as nat,
            )
            &&& after.left.follow == view.left.follow
            &&& view.left.follow ==> after.left.top == after.left.last_top(dims.rows as nat)
            &&& after.left.status == "Reloaded"@
            &&& after.right == view.right
            &&& after.selection == view.selection
            &&& after.focus == view.focus
            &&& after.frame is None
        }),
{
    crate::viewer::a_new_size_keeps_the_view(
        view.left,
        dims.rows as nat,
        dims.right_cols as nat,
        dims.rows as nat,
        dims.left_cols as nat,
        recording,
    );
    reveal(Viewer::ensured);
}

} // verus!
