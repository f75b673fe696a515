//! The standalone viewer: a log over the whole display, with a status line below.

use crate::cell::{grid, Cell};
use crate::commands::{
    pager_binding, pager_command, pager_selection_binding, pager_selection_command, Command,
};
use crate::keys::{pressed, with_control, Key, KeyCode, Prompt};
use crate::render::{
    cell_prefix_width, cells_ops, common_len, common_prefix_len, display_coordinate, draw_cells,
    ops, prefix_columns, push_op, push_ops, same_cells, to_display, DrawOp, Op,
};
use crate::replay::{LogUpdate, Recording, Replay, ReplayFile};
use crate::selection::{
    apply_selection_highlight, column_before, column_behind, first_column, first_selectable_col,
    highlighted, last_column, last_selectable_col, next_col, normal_column, normalize_col,
    previous_col, selected_text, Selection, SelectionMode, SelectionPoint,
};
use crate::split::{plural_ending, selection_label, stepped};
use crate::split_model::{mode_label, origin, plural, point, signed};
use crate::terminal::{clamped, VirtualTerminal};
use crate::text::{chars_of, decimal, push_chars, push_decimal};
use crate::viewer::{half_height, height, Viewer, ViewerCore};
use vstd::prelude::*;

verus! {

/// The size of the display, and of the terminal that the log is replayed on.
#[derive(Debug, Clone, Copy, PartialEq, Eq, Structural)]
pub struct ViewportDims {
    pub width: u16,
    pub height: u16,
    pub source_rows: usize,
    pub source_cols: usize,
    pub content_width: usize,
}

/// The larger of two numbers.
pub open spec fn larger(a: int, b: int) -> int {
    if a < b {
        b
    } else {
        a
    }
}

/// The dimensions for a display of the given size. The log is replayed on a terminal of the
/// given size, or else one as large as the display, with at least 40 rows and 120 columns.
pub fn viewport_dims_for(width: u16, height: u16, rows: Option<usize>, cols: Option<usize>) -> (r:
    ViewportDims)
    ensures
        r.width == width,
        r.height == height,
        r.source_rows == larger(
            1,
            match rows {
                Some(given) => given as int,
                None => larger(40, height - 1),
            },
        ),
        r.source_cols == larger(
            1,
            match cols {
                Some(given) => given as int,
                None => larger(120, width as int),
            },
        ),
        r.content_width == larger(1, width - 1),
{
    let content_rows: usize = ViewerCore::content_height(height as usize);
    let source_rows: usize = match rows {
        Some(given) => given,
        None => if content_rows < 40 {
            40
        } else {
            content_rows
        },
    };
    let source_cols: usize = match cols {
        Some(given) => given,
        None => if width < 120 {
            120
        } else {
            width as usize
        },
    };
    ViewportDims {
        width,
        height,
        source_rows: if source_rows == 0 {
            1
        } else {
            source_rows
        },
        source_cols: if source_cols == 0 {
            1
        } else {
            source_cols
        },
        content_width: if width <= 2 {
            1
        } else {
            (width - 1) as usize
        },
    }
}

/// What has been drawn.
#[verifier::ext_equal]
pub struct Page {
    pub width: nat,
    pub height: nat,
    pub rows: Seq<Seq<Cell>>,
    pub status: Seq<char>,
}

/// What has to be done outside after a key.
pub enum PageAct {
    Continue,
    Quit,
    /// Let a search text be typed.
    Prompt,
    /// Put a text into the clipboard.
    Copy(Seq<char>),
    /// Read the log again.
    Reload,
}

/// The state of the viewer.
#[verifier::ext_equal]
pub struct Pager {
    pub viewer: Viewer,
    pub selection: Option<Selection>,
    pub needs_redraw: bool,
    pub page: Option<Page>,
}

/// The help text.
pub open spec fn page_help() -> Seq<char> {
    "j/k, C-e/C-n/C-y scroll, space/b/C-f/C-b page, d/u half-page, g/G home/end, / search, n/N repeat, v/V visual select, F follow, q quit"@
}

/// The row that is drawn already, if the page before has the same shape.
pub open spec fn drawn_before(page: Page, previous: Option<Page>, y: int) -> Option<Seq<Cell>> {
    match previous {
        Some(before) => if before.width == page.width && before.height == page.height
            && before.rows.len() == page.rows.len() {
            Some(before.rows[y])
        } else {
            None
        },
        None => None,
    }
}

/// The steps that draw a row, from the first cell on that is not drawn already.
pub open spec fn row_ops(
    y: u16,
    previous: Option<Seq<Cell>>,
    cells: Seq<Cell>,
    max_width: nat,
) -> Seq<Op> {
    let same = match previous {
        Some(before) => common_len(before, cells, 0),
        None => 0,
    };
    let start = prefix_columns(cells, same as nat);
    if previous == Some(cells) || start >= max_width {
        Seq::empty()
    } else {
        seq![Op::MoveTo { x: display_coordinate(start), y }, Op::ClearRight] + cells_ops(
            y,
            start,
            cells.skip(same),
            max_width,
        )
    }
}

/// The steps that draw the first `count` rows of a page.
pub open spec fn rows_ops(page: Page, previous: Option<Page>, count: nat) -> Seq<Op>
    decreases count,
{
    if count == 0 {
        Seq::empty()
    } else {
        let y = count - 1;
        rows_ops(page, previous, y as nat) + row_ops(
            display_coordinate(y as nat),
            drawn_before(page, previous, y),
            page.rows[y],
            one_less(page.width),
        )
    }
}

/// A number reduced by one, but not below zero.
pub open spec fn one_less(n: nat) -> nat {
    if n == 0 {
        0
    } else {
        (n - 1) as nat
    }
}

/// The steps that draw the status line.
pub open spec fn status_ops(page: Page) -> Seq<Op> {
    seq![
        Op::MoveTo { x: 0, y: display_coordinate(one_less(page.height)) },
        Op::ClearLine,
        Op::Reset,
        Op::Reverse,
        Op::Print(page.status),
        Op::Reset,
    ]
}

/// Whether the status line is drawn already.
pub open spec fn status_drawn(page: Page, previous: Option<Page>) -> bool {
    match previous {
        Some(before) => before.width == page.width && before.height == page.height
            && before.rows.len() == page.rows.len() && before.status == page.status,
        None => false,
    }
}

/// The steps that bring the display from one page to another.
pub open spec fn page_ops(page: Page, previous: Option<Page>) -> Seq<Op> {
    rows_ops(page, previous, page.rows.len()) + (if status_drawn(page, previous) {
        Seq::empty()
    } else {
        status_ops(page)
    })
}

/// The steps that show a line that is being typed.
pub open spec fn page_prompt_ops(prompt: Seq<char>, line: Seq<char>, dims: ViewportDims) -> Seq<
    Op,
> {
    seq![
        Op::MoveTo { x: 0, y: display_coordinate(one_less(dims.height as nat)) },
        Op::Reverse,
        Op::ClearLine,
        Op::Print(prompt + line),
        Op::Reset,
    ]
}

impl Pager {
    pub open spec fn wf(self) -> bool {
        &&& self.viewer.wf()
        &&& self.selection matches Some(selection) ==> {
            &&& selection.anchor.row < usize::MAX
            &&& selection.cursor.row < usize::MAX
        }
    }

    pub open spec fn laid(self, dims: ViewportDims) -> Pager {
        Pager { viewer: self.viewer.ensured(dims.content_width as nat), ..self }
    }

    pub open spec fn with_viewer(self, viewer: Viewer) -> Pager {
        Pager { viewer, ..self }
    }

    pub open spec fn with_status(self, status: Seq<char>) -> Pager {
        Pager { viewer: Viewer { status, ..self.viewer }, ..self }
    }

    pub open spec fn dirty(self) -> Pager {
        Pager { needs_redraw: true, ..self }
    }

    pub open spec fn count(self) -> nat {
        self.viewer.display().len()
    }

    /// Moves the view by rows.
    pub open spec fn scrolled(self, amount: int, dims: ViewportDims) -> Pager {
        let v = self.viewer.scrolled(amount, dims.height as nat, dims.content_width as nat);
        Pager {
            viewer: v,
            needs_redraw: self.needs_redraw || v.top != self.viewer.top || self.viewer.status.len()
                > 0,
            ..self
        }
    }

    /// Goes to the start of the log, or to its end.
    pub open spec fn file_edge(self, to_end: bool, dims: ViewportDims) -> Pager {
        let v = Viewer { follow: false, ..self.viewer };
        self.with_viewer(
            if to_end {
                v.at_end(dims.height as nat, dims.content_width as nat)
            } else {
                v.with_top(0)
            },
        ).with_status(Seq::empty()).dirty()
    }

    /// Follows the log from now on.
    pub open spec fn following(self, dims: ViewportDims) -> Pager {
        self.with_viewer(
            Viewer { follow: true, ..self.viewer }.at_end(
                dims.height as nat,
                dims.content_width as nat,
            ),
        ).with_status("Follow mode"@).dirty()
    }

    /// Stops following the log.
    pub open spec fn unfollowed(self) -> Pager {
        self.with_viewer(Viewer { follow: false, ..self.viewer })
    }

    /// The place where a selection starts: the first visible row that is not empty.
    pub open spec fn selection_start(self, dims: ViewportDims) -> SelectionPoint {
        if self.count() == 0 {
            origin()
        } else {
            let row = self.viewer.first_filled(
                self.viewer.top as int,
                self.viewer.view_end(dims.height as nat) as int,
                self.viewer.top_row() as int,
            );
            point(row, first_column(self.viewer.row_cells(row)))
        }
    }

    /// Starts a selection.
    pub open spec fn selecting(self, mode: SelectionMode, dims: ViewportDims) -> Pager {
        let s = self.unfollowed().laid(dims);
        let start = s.selection_start(dims);
        Pager {
            selection: Some(Selection { mode, anchor: start, cursor: start }),
            ..s
        }.with_status(Seq::empty()).dirty()
    }

    /// Moves the free end of the selection.
    pub open spec fn selection_to(self, selection: Selection, to: SelectionPoint) -> Pager {
        Pager { selection: Some(Selection { cursor: to, ..selection }), ..self }.dirty()
    }

    /// Moves the free end of the selection, and the view to show it.
    pub open spec fn selection_shown_to(
        self,
        selection: Selection,
        to: SelectionPoint,
        dims: ViewportDims,
    ) -> Pager {
        let s = self.selection_to(selection, to);
        s.with_viewer(s.viewer.showing(dims.height as nat, to.row as nat))
    }

    pub open spec fn selection_row_moved(
        self,
        selection: Selection,
        amount: int,
        dims: ViewportDims,
    ) -> Pager {
        let s = self.laid(dims);
        if s.count() == 0 {
            s
        } else {
            let row = clamped(selection.cursor.row + amount, 0, s.count() - 1);
            s.selection_shown_to(
                selection,
                point(
                    row,
                    normal_column(s.viewer.row_cells(row), selection.cursor.col as int),
                ),
                dims,
            )
        }
    }

    pub open spec fn selection_column_moved(
        self,
        selection: Selection,
        forward: bool,
        dims: ViewportDims,
    ) -> Pager {
        let s = self.laid(dims);
        let cells = s.viewer.row_cells(selection.cursor.row as int);
        s.selection_to(
            selection,
            point(
                selection.cursor.row as int,
                if forward {
                    column_behind(cells, selection.cursor.col as int)
                } else {
                    column_before(cells, selection.cursor.col as int)
                },
            ),
        )
    }

    pub open spec fn selection_line_edge(
        self,
        selection: Selection,
        to_end: bool,
        dims: ViewportDims,
    ) -> Pager {
        let s = self.laid(dims);
        s.selection_to(
            selection,
            point(
                selection.cursor.row as int,
                if to_end {
                    last_column(s.viewer.row_cells(selection.cursor.row as int))
                } else {
                    0
                },
            ),
        )
    }

    pub open spec fn selection_file_edge(
        self,
        selection: Selection,
        to_end: bool,
        dims: ViewportDims,
    ) -> Pager {
        let s = self.laid(dims);
        if s.count() == 0 {
            s
        } else {
            let row = if to_end {
                s.count() - 1
            } else {
                0
            };
            let cells = s.viewer.row_cells(row);
            s.selection_shown_to(
                selection,
                point(
                    row,
                    if to_end {
                        last_column(cells)
                    } else {
                        first_column(cells)
                    },
                ),
                dims,
            )
        }
    }

    /// What came of putting the selection into the clipboard.
    pub open spec fn copy_reported(self, error: Option<Seq<char>>) -> Pager {
        match self.selection {
            None => self,
            Some(selection) => match error {
                None => Pager {
                    selection: None,
                    ..self.with_status(
                        "Copied "@ + decimal(selection.lines()) + " displayed line"@ + plural(
                            selection.lines(),
                        ),
                    ).dirty()
                },
                Some(message) => self.with_status(
                    "Clipboard copy failed: "@ + message,
                ).dirty(),
            },
        }
    }

    /// Searches again.
    pub open spec fn search_repeated(self, forward: bool, dims: ViewportDims) -> Pager {
        self.with_viewer(
            self.viewer.search_repeated(forward, dims.height as nat, dims.content_width as nat),
        ).dirty()
    }

    /// Searches for a text that has been typed; an empty one only clears the status.
    pub open spec fn searched(self, term: Seq<char>, dims: ViewportDims) -> Pager {
        let start = Pager { page: None, ..self.with_status(Seq::empty()) }.dirty();
        if term.len() == 0 {
            start
        } else {
            let v = Viewer {
                search_term: Some(term),
                last_search_forward: true,
                ..start.viewer
            };
            start.with_viewer(
                v.searched(term, true, dims.height as nat, dims.content_width as nat),
            ).with_status(
                if v.hit(term, true, dims.content_width as nat) is Some {
                    "/"@ + term
                } else {
                    "Pattern not found: "@ + term
                },
            )
        }
    }

    /// Carries out a command without a selection.
    #[verifier::opaque]
    pub open spec fn done(self, command: Command, dims: ViewportDims) -> (Pager, PageAct) {
        match command {
            Command::Quit => (self, PageAct::Quit),
            Command::Select(mode) => (self.selecting(mode, dims), PageAct::Continue),
            Command::Row { forward } => (
                self.scrolled(signed(forward, 1), dims),
                PageAct::Continue,
            ),
            Command::Page { forward } => (
                self.scrolled(signed(forward, height(dims.height as nat)), dims),
                PageAct::Continue,
            ),
            Command::HalfPage { forward } => (
                self.scrolled(signed(forward, half_height(dims.height as nat)), dims),
                PageAct::Continue,
            ),
            Command::FileEdge { to_end } => (self.file_edge(to_end, dims), PageAct::Continue),
            Command::Follow => (self.following(dims), PageAct::Continue),
            Command::StopFollow => (
                self.unfollowed().with_status("Follow stopped"@).dirty(),
                PageAct::Continue,
            ),
            Command::Reload => (self, PageAct::Reload),
            Command::Search => (self, PageAct::Prompt),
            Command::Repeat { forward } => (
                self.search_repeated(forward, dims),
                PageAct::Continue,
            ),
            Command::Help => (self.with_status(page_help()).dirty(), PageAct::Continue),
            _ => (self, PageAct::Continue),
        }
    }

    /// Carries out a command on the selection.
    #[verifier::opaque]
    pub open spec fn selection_done(
        self,
        selection: Selection,
        command: Command,
        dims: ViewportDims,
    ) -> (Pager, PageAct) {
        match command {
            Command::Cancel => (
                Pager { selection: None, ..self.with_status("Selection cleared"@) }.dirty(),
                PageAct::Continue,
            ),
            Command::Copy => (
                self.laid(dims),
                PageAct::Copy(selected_text(selection, self.laid(dims).viewer.table())),
            ),
            Command::Row { forward } => (
                self.selection_row_moved(selection, signed(forward, 1), dims),
                PageAct::Continue,
            ),
            Command::Column { forward } => (
                self.selection_column_moved(selection, forward, dims),
                PageAct::Continue,
            ),
            Command::Page { forward } => (
                self.selection_row_moved(
                    selection,
                    signed(forward, height(dims.height as nat)),
                    dims,
                ),
                PageAct::Continue,
            ),
            Command::HalfPage { forward } => (
                self.selection_row_moved(
                    selection,
                    signed(forward, half_height(dims.height as nat)),
                    dims,
                ),
                PageAct::Continue,
            ),
            Command::LineEdge { to_end } => (
                self.selection_line_edge(selection, to_end, dims),
                PageAct::Continue,
            ),
            Command::FileEdge { to_end } => (
                self.selection_file_edge(selection, to_end, dims),
                PageAct::Continue,
            ),
            _ => (self, PageAct::Continue),
        }
    }

    /// Takes in a key.
    pub open spec fn key_done(self, key: Key, dims: ViewportDims) -> (Pager, PageAct) {
        match self.selection {
            Some(selection) => self.selection_done(selection, pager_selection_binding(key), dims),
            None => self.done(pager_binding(key), dims),
        }
    }

    /// Takes in an update of the log.
    pub open spec fn updated(self, update: LogUpdate, dims: ViewportDims) -> Pager {
        let s = self.with_viewer(
            self.viewer.updated(update, dims.height as nat, dims.content_width as nat),
        );
        if ReplayFile::update_changes(update) {
            s.dirty()
        } else {
            s
        }
    }

    /// Shows the log as it has been read again, for a display of the given size.
    pub open spec fn reread(self, recording: Recording, dims: ViewportDims) -> Pager {
        Pager {
            viewer: self.viewer.resized(
                dims.source_rows as nat,
                dims.source_cols as nat,
                dims.height as nat,
                dims.content_width as nat,
                recording,
            ),
            selection: None,
            needs_redraw: true,
            page: None,
        }
    }

    /// The status line while something is selected.
    pub open spec fn status_override(self) -> Option<Seq<char>> {
        match self.selection {
            Some(selection) => Some(
                mode_label(selection.mode)
                    + "  h/j/k/l move  0/$ line  g/G file  y copy  Esc cancel"@,
            ),
            None => None,
        }
    }

    /// Row `y` of the view, with the selection.
    pub open spec fn line(self, y: int) -> Seq<Cell> {
        let row = self.viewer.top + y;
        match self.selection {
            Some(selection) => highlighted(self.viewer.row_cells(row), row, selection),
            None => self.viewer.row_cells(row),
        }
    }

    /// What the display shows, for a view that is up to date.
    pub open spec fn picture(self, dims: ViewportDims) -> Page {
        Page {
            width: dims.width as nat,
            height: dims.height as nat,
            rows: Seq::new(height(dims.height as nat), |y: int| self.line(y)),
            status: self.viewer.status_line(
                dims.height as nat,
                dims.width as nat,
                self.status_override(),
            ),
        }
    }

    /// The view with its layout up to date, and the top within the log.
    pub open spec fn settled(self, dims: ViewportDims) -> Pager {
        self.with_viewer(
            self.viewer.bounded(dims.height as nat, dims.content_width as nat),
        )
    }

    /// The view after it has been drawn.
    pub open spec fn drawn(self, dims: ViewportDims) -> Pager {
        let s = self.settled(dims);
        Pager { page: Some(s.picture(dims)), needs_redraw: false, ..s }
    }

    /// The steps that bring the display up to date.
    pub open spec fn drawing(self, dims: ViewportDims) -> Seq<Op> {
        page_ops(self.settled(dims).picture(dims), self.page)
    }
}

// The viewer in code
// ------------------

/// What has been drawn.
#[derive(Debug)]
pub struct PageSnapshot {
    pub width: u16,
    pub height: u16,
    pub rows: Vec<Vec<Cell>>,
    pub status: String,
}

impl View for PageSnapshot {
    type V = Page;

    open spec fn view(&self) -> Page {
        Page {
            width: self.width as nat,
            height: self.height as nat,
            rows: grid(self.rows@),
            status: self.status@,
        }
    }
}

/// The view of a page, if there is one.
pub open spec fn page_view(page: Option<PageSnapshot>) -> Option<Page> {
    match page {
        Some(drawn) => Some(drawn@),
        None => None,
    }
}

/// What has to be done outside after a key.
#[derive(Debug)]
pub enum PageAction {
    Continue,
    Quit,
    /// Let a search text be typed.
    Prompt,
    /// Put a text into the clipboard.
    Copy(String),
    /// Read the log again.
    Reload,
}

impl View for PageAction {
    type V = PageAct;

    open spec fn view(&self) -> PageAct {
        match self {
            PageAction::Continue => PageAct::Continue,
            PageAction::Quit => PageAct::Quit,
            PageAction::Prompt => PageAct::Prompt,
            PageAction::Copy(text) => PageAct::Copy(text@),
            PageAction::Reload => PageAct::Reload,
        }
    }
}

/// The standalone viewer.
#[derive(Debug)]
pub struct PageView {
    pub(crate) viewer: ViewerCore,
    pub(crate) selection: Option<Selection>,
    pub(crate) needs_redraw: bool,
    pub(crate) previous_page: Option<PageSnapshot>,
}

impl View for PageView {
    type V = Pager;

    open(crate) spec fn view(&self) -> Pager {
        Pager {
            viewer: self.viewer@,
            selection: self.selection,
            needs_redraw: self.needs_redraw,
            page: page_view(self.previous_page),
        }
    }
}

/// Whether two texts are the same.
fn same_text(left: &String, right: &String) -> (r: bool)
    ensures
        r == (left@ == right@),
{
    let a: Vec<char> = chars_of(left.as_str());
    let b: Vec<char> = chars_of(right.as_str());
    if a.len() != b.len() {
        return false;
    }
    let mut i: usize = 0;
    while i < a.len()
        invariant
            i <= a@.len(),
            a@ == left@,
            b@ == right@,
            a@.len() == b@.len(),
            forall|k: int| 0 <= k < i ==> a@[k] == b@[k],
        decreases a@.len() - i,
    {
        if a[i] != b[i] {
            return false;
        }
        i += 1;
    }
    assert(a@ =~= b@);
    true
}

fn draw_row_diff(y: u16, previous: Option<&Vec<Cell>>, cells: &Vec<Cell>, max_width: usize) -> (r:
    Vec<DrawOp>)
    ensures
        ops(r@) == row_ops(
            y,
            match previous {
                Some(row) => Some(row@),
                None => None,
            },
            cells@,
            max_width as nat,
        ),
{
    let mut out: Vec<DrawOp> = Vec::new();
    assert(ops(out@) =~= Seq::<Op>::empty());
    let same: usize = match previous {
        Some(before) => {
            if same_cells(before.as_slice(), cells.as_slice()) {
                return out;
            }
            common_prefix_len(before.as_slice(), cells.as_slice())
        },
        None => 0,
    };
    let start_x: usize = cell_prefix_width(cells.as_slice(), same);
    if start_x >= max_width {
        return out;
    }
    push_op(&mut out, DrawOp::MoveTo { x: to_display(start_x), y });
    push_op(&mut out, DrawOp::ClearRight);
    let rest: &[Cell] = vstd::slice::slice_subrange(cells.as_slice(), same, cells.len());
    assert(rest@ =~= cells@.skip(same as int));
    let drawn: Vec<DrawOp> = draw_cells(y, start_x, rest, max_width);
    let ghost before = ops(out@);
    push_ops(&mut out, drawn);
    assert(before =~= seq![
        Op::MoveTo { x: display_coordinate(start_x as nat), y },
        Op::ClearRight,
    ]);
    out
}

/// The steps that bring the display from one page to another. Rows are drawn from the first
/// cell on that has changed, unless the shape has changed.
pub fn draw_page_diff(page: &PageSnapshot, previous: &Option<PageSnapshot>) -> (r: Vec<DrawOp>)
    ensures
        ops(r@) == page_ops(page@, page_view(*previous)),
{
    let ghost before = page_view(*previous);
    let mut out: Vec<DrawOp> = Vec::new();
    assert(ops(out@) =~= Seq::<Op>::empty());
    let max_width: usize = if page.width == 0 {
        0
    } else {
        (page.width - 1) as usize
    };
    let mut y: usize = 0;
    while y < page.rows.len()
        invariant
            y <= page.rows@.len(),
            before == page_view(*previous),
            max_width == one_less(page.width as nat),
            ops(out@) == rows_ops(page@, before, y as nat),
        decreases page.rows@.len() - y,
    {
        let drawn: Option<&Vec<Cell>> = match previous {
            Some(earlier) => {
                if earlier.width == page.width && earlier.height == page.height
                    && earlier.rows.len() == page.rows.len() {
                    assert(earlier@.rows[y as int] == earlier.rows@[y as int]@);
                    Some(&earlier.rows[y])
                } else {
                    None
                }
            },
            None => None,
        };
        assert(page@.rows[y as int] == page.rows@[y as int]@);
        let row: Vec<DrawOp> = draw_row_diff(to_display(y), drawn, &page.rows[y], max_width);
        push_ops(&mut out, row);
        y += 1;
    }
    let kept: bool = match previous {
        Some(earlier) => earlier.width == page.width && earlier.height == page.height
            && earlier.rows.len() == page.rows.len() && same_text(&earlier.status, &page.status),
        None => false,
    };
    if !kept {
        let ghost rows = ops(out@);
        let bottom: u16 = if page.height == 0 {
            0
        } else {
            page.height - 1
        };
        assert(bottom == display_coordinate(one_less(page.height as nat)));
        push_op(&mut out, DrawOp::MoveTo { x: 0, y: bottom });
        push_op(&mut out, DrawOp::ClearLine);
        push_op(&mut out, DrawOp::Reset);
        push_op(&mut out, DrawOp::Reverse);
        push_op(&mut out, DrawOp::Print(page.status.clone()));
        push_op(&mut out, DrawOp::Reset);
        assert(ops(out@) =~= rows + status_ops(page@));
    } else {
        assert(ops(out@) + Seq::<Op>::empty() =~= ops(out@));
    }
    out
}

/// Shows a line that is being typed in the status line.
pub fn draw_page_prompt(prompt: &str, line: &Prompt, dims: &ViewportDims) -> (r: Vec<DrawOp>)
    ensures
        ops(r@) == page_prompt_ops(prompt@, line@, *dims),
{
    let mut text: String = prompt.to_owned();
    push_chars(&mut text, line.chars.as_slice());
    let bottom: u16 = if dims.height == 0 {
        0
    } else {
        dims.height - 1
    };
    assert(bottom == display_coordinate(one_less(dims.height as nat)));
    let mut out: Vec<DrawOp> = Vec::new();
    assert(ops(out@) =~= Seq::<Op>::empty());
    push_op(&mut out, DrawOp::MoveTo { x: 0, y: bottom });
    push_op(&mut out, DrawOp::Reverse);
    push_op(&mut out, DrawOp::ClearLine);
    push_op(&mut out, DrawOp::Print(text));
    push_op(&mut out, DrawOp::Reset);
    assert(ops(out@) =~= page_prompt_ops(prompt@, line@, *dims));
    out
}

impl PageView {
    /// A viewer of a log that has been opened; one that follows the log starts at its end.
    pub fn new(viewer: ViewerCore, dims: &ViewportDims) -> (r: Self)
        requires
            viewer@.wf(),
        ensures
            r@.wf(),
            r@ == (Pager {
                viewer: if viewer@.follow {
                    viewer@.at_end(dims.height as nat, dims.content_width as nat)
                } else {
                    viewer@
                },
                selection: None,
                needs_redraw: true,
                page: None,
            }),
    {
        let mut viewer: ViewerCore = viewer;
        if viewer.follow {
            viewer.jump_to_end(dims.height as usize, dims.content_width);
        }
        PageView { viewer, selection: None, needs_redraw: true, previous_page: None }
    }

    /// The viewer of the log.
    pub fn viewer(&self) -> (r: &ViewerCore)
        ensures
            r@ == self@.viewer,
    {
        &self.viewer
    }

    /// What is selected.
    pub fn selection(&self) -> (r: Option<Selection>)
        ensures
            r == self@.selection,
    {
        self.selection
    }

    /// Whether the display has to be drawn again.
    pub fn needs_redraw(&self) -> (r: bool)
        ensures
            r == self@.needs_redraw,
    {
        self.needs_redraw
    }

    /// Takes note that the display has to be drawn again.
    pub fn mark_dirty(&mut self)
        requires
            old(self)@.wf(),
        ensures
            final(self)@.wf(),
            final(self)@ == old(self)@.dirty(),
    {
        self.needs_redraw = true;
        assert(self@ =~= old(self)@.dirty());
    }

    /// What has been drawn.
    pub fn previous_page(&self) -> (r: &Option<PageSnapshot>)
        ensures
            page_view(*r) == self@.page,
    {
        &self.previous_page
    }

    fn lay_out(&mut self, dims: &ViewportDims)
        requires
            old(self)@.wf(),
        ensures
            final(self)@.wf(),
            final(self)@ == old(self)@.laid(*dims),
            final(self)@.viewer.layout is Some,
    {
        self.viewer.ensure_layout(dims.content_width);
        assert(self@ =~= old(self)@.laid(*dims));
    }

    fn set_status(&mut self, status: String)
        requires
            old(self)@.wf(),
        ensures
            final(self)@.wf(),
            final(self)@ == old(self)@.with_status(status@),
    {
        self.viewer.status = status;
        assert(self@ =~= old(self)@.with_status(status@));
    }

    fn clear_status(&mut self)
        requires
            old(self)@.wf(),
        ensures
            final(self)@.wf(),
            final(self)@ == old(self)@.with_status(Seq::empty()),
    {
        let none: String = String::new();
        assert(none@ =~= Seq::<char>::empty());
        self.set_status(none);
    }

    fn unfollow(&mut self)
        requires
            old(self)@.wf(),
        ensures
            final(self)@.wf(),
            final(self)@ == old(self)@.unfollowed(),
    {
        self.viewer.follow = false;
        assert(self@ =~= old(self)@.unfollowed());
    }

    fn note_scrolled(&mut self, old_top: usize, had_status: bool)
        requires
            old(self)@.wf(),
        ensures
            final(self)@.wf(),
            final(self)@ == (Pager {
                needs_redraw: old(self)@.needs_redraw || old(self)@.viewer.top != old_top
                    || had_status,
                ..old(self)@
            }),
    {
        if self.viewer.top != old_top || had_status {
            self.needs_redraw = true;
        }
        assert(self@ =~= (Pager {
            needs_redraw: old(self)@.needs_redraw || old(self)@.viewer.top != old_top
                || had_status,
            ..old(self)@
        }));
    }

    fn scroll(&mut self, forward: bool, dims: &ViewportDims)
        requires
            old(self)@.wf(),
        ensures
            final(self)@.wf(),
            final(self)@ == old(self)@.scrolled(signed(forward, 1), *dims),
    {
        let had_status: bool = !self.viewer.status.as_str().is_empty();
        let old_top: usize = self.viewer.top;
        let amount: isize = if forward {
            1
        } else {
            -1
        };
        self.viewer.scroll(amount, dims.height as usize, dims.content_width);
        self.note_scrolled(old_top, had_status);
        assert(self@ =~= old(self)@.scrolled(signed(forward, 1), *dims));
    }

    fn page(&mut self, forward: bool, dims: &ViewportDims)
        requires
            old(self)@.wf(),
        ensures
            final(self)@.wf(),
            final(self)@ == old(self)@.scrolled(
                signed(forward, height(dims.height as nat)),
                *dims,
            ),
    {
        let had_status: bool = !self.viewer.status.as_str().is_empty();
        let old_top: usize = self.viewer.top;
        let amount: isize = if forward {
            1
        } else {
            -1
        };
        proof {
            lemma_one_times(forward, height(dims.height as nat));
        }
        self.viewer.page(amount, dims.height as usize, dims.content_width);
        self.note_scrolled(old_top, had_status);
        assert(self@ =~= old(self)@.scrolled(signed(forward, height(dims.height as nat)), *dims));
    }

    fn half_page(&mut self, forward: bool, dims: &ViewportDims)
        requires
            old(self)@.wf(),
        ensures
            final(self)@.wf(),
            final(self)@ == old(self)@.scrolled(
                signed(forward, half_height(dims.height as nat)),
                *dims,
            ),
    {
        let had_status: bool = !self.viewer.status.as_str().is_empty();
        let old_top: usize = self.viewer.top;
        let amount: isize = if forward {
            1
        } else {
            -1
        };
        proof {
            lemma_one_times(forward, half_height(dims.height as nat));
        }
        self.viewer.half_page(amount, dims.height as usize, dims.content_width);
        self.note_scrolled(old_top, had_status);
        assert(self@ =~= old(self)@.scrolled(
            signed(forward, half_height(dims.height as nat)),
            *dims,
        ));
    }

    fn jump_file_edge(&mut self, to_end: bool, dims: &ViewportDims)
        requires
            old(self)@.wf(),
        ensures
            final(self)@.wf(),
            final(self)@ == old(self)@.file_edge(to_end, *dims),
    {
        let ghost before = self@;
        self.unfollow();
        let ghost v = self.viewer@;
        if to_end {
            self.viewer.jump_to_end(dims.height as usize, dims.content_width);
            assert(self@ =~= before.with_viewer(
                v.at_end(dims.height as nat, dims.content_width as nat),
            ));
        } else {
            self.viewer.set_top(0);
            assert(self@ =~= before.with_viewer(v.with_top(0)));
        }
        self.clear_status();
        self.mark_dirty();
    }

    fn follow(&mut self, dims: &ViewportDims)
        requires
            old(self)@.wf(),
        ensures
            final(self)@.wf(),
            final(self)@ == old(self)@.following(*dims),
    {
        let ghost before = self@;
        self.viewer.follow = true;
        assert(self.viewer@ =~= (Viewer { follow: true, ..before.viewer }));
        self.viewer.jump_to_end(dims.height as usize, dims.content_width);
        assert(self@ =~= before.with_viewer(
            (Viewer { follow: true, ..before.viewer }).at_end(
                dims.height as nat,
                dims.content_width as nat,
            ),
        ));
        self.set_status("Follow mode".to_owned());
        self.mark_dirty();
    }

    fn selection_start(&self, dims: &ViewportDims) -> (r: SelectionPoint)
        requires
            self@.viewer.layout is Some,
        ensures
            r == self@.selection_start(*dims),
            r.row < usize::MAX,
    {
        let count: usize = self.viewer.display_count();
        if count == 0 {
            return SelectionPoint { row: 0, col: 0 };
        }
        let end: usize = self.viewer.view_end(dims.height as usize);
        let row: usize = self.viewer.first_filled(self.viewer.top, end, self.viewer.top_row());
        let cells: Vec<Cell> = self.viewer.row_cells(row);
        SelectionPoint { row, col: first_selectable_col(cells.as_slice()) }
    }

    fn start_selection(&mut self, mode: SelectionMode, dims: &ViewportDims)
        requires
            old(self)@.wf(),
        ensures
            final(self)@.wf(),
            final(self)@ == old(self)@.selecting(mode, *dims),
    {
        self.unfollow();
        self.lay_out(dims);
        let start: SelectionPoint = self.selection_start(dims);
        let ghost before = self@;
        self.selection = Some(Selection::new(mode, start));
        assert(self@ =~= (Pager { selection: self.selection, ..before }));
        self.clear_status();
        self.mark_dirty();
    }

    fn set_selection_cursor(&mut self, selection: Selection, to: SelectionPoint)
        requires
            old(self)@.wf(),
            selection.anchor.row < usize::MAX,
            to.row < usize::MAX,
        ensures
            final(self)@.wf(),
            final(self)@ == old(self)@.selection_to(selection, to),
    {
        self.selection = Some(
            Selection { mode: selection.mode, anchor: selection.anchor, cursor: to },
        );
        self.needs_redraw = true;
        assert(self@ =~= old(self)@.selection_to(selection, to));
    }

    fn show_selection_cursor(
        &mut self,
        selection: Selection,
        to: SelectionPoint,
        dims: &ViewportDims,
    )
        requires
            old(self)@.wf(),
            selection.anchor.row < usize::MAX,
            to.row < usize::MAX,
        ensures
            final(self)@.wf(),
            final(self)@ == old(self)@.selection_shown_to(selection, to, *dims),
    {
        self.set_selection_cursor(selection, to);
        let ghost before = self@;
        self.viewer.show_row(dims.height as usize, to.row);
        assert(self@ =~= before.with_viewer(
            before.viewer.showing(dims.height as nat, to.row as nat),
        ));
    }

    fn move_selection_row(
        &mut self,
        selection: Selection,
        forward: bool,
        step: usize,
        dims: &ViewportDims,
    )
        requires
            old(self)@.wf(),
            selection.anchor.row < usize::MAX,
        ensures
            final(self)@.wf(),
            final(self)@ == old(self)@.selection_row_moved(
                selection,
                signed(forward, step as nat),
                *dims,
            ),
    {
        self.lay_out(dims);
        let count: usize = self.viewer.display_count();
        if count == 0 {
            return;
        }
        let row: usize = stepped(selection.cursor.row, forward, step, count - 1);
        let cells: Vec<Cell> = self.viewer.row_cells(row);
        let col: usize = normalize_col(cells.as_slice(), selection.cursor.col);
        self.show_selection_cursor(selection, SelectionPoint { row, col }, dims);
    }

    fn move_selection_col(&mut self, selection: Selection, forward: bool, dims: &ViewportDims)
        requires
            old(self)@.wf(),
            selection.anchor.row < usize::MAX,
            selection.cursor.row < usize::MAX,
        ensures
            final(self)@.wf(),
            final(self)@ == old(self)@.selection_column_moved(selection, forward, *dims),
    {
        self.lay_out(dims);
        let row: usize = selection.cursor.row;
        let cells: Vec<Cell> = self.viewer.row_cells(row);
        let col: usize = if forward {
            next_col(cells.as_slice(), selection.cursor.col)
        } else {
            previous_col(cells.as_slice(), selection.cursor.col)
        };
        self.set_selection_cursor(selection, SelectionPoint { row, col });
    }

    fn move_selection_line_edge(&mut self, selection: Selection, to_end: bool, dims: &ViewportDims)
        requires
            old(self)@.wf(),
            selection.anchor.row < usize::MAX,
            selection.cursor.row < usize::MAX,
        ensures
            final(self)@.wf(),
            final(self)@ == old(self)@.selection_line_edge(selection, to_end, *dims),
    {
        self.lay_out(dims);
        let row: usize = selection.cursor.row;
        let cells: Vec<Cell> = self.viewer.row_cells(row);
        let col: usize = if to_end {
            last_selectable_col(cells.as_slice())
        } else {
            0
        };
        self.set_selection_cursor(selection, SelectionPoint { row, col });
    }

    fn jump_selection_file_edge(&mut self, selection: Selection, to_end: bool, dims: &ViewportDims)
        requires
            old(self)@.wf(),
            selection.anchor.row < usize::MAX,
        ensures
            final(self)@.wf(),
            final(self)@ == old(self)@.selection_file_edge(selection, to_end, *dims),
    {
        self.lay_out(dims);
        let count: usize = self.viewer.display_count();
        if count == 0 {
            return;
        }
        let row: usize = if to_end {
            count - 1
        } else {
            0
        };
        let cells: Vec<Cell> = self.viewer.row_cells(row);
        let col: usize = if to_end {
            last_selectable_col(cells.as_slice())
        } else {
            first_selectable_col(cells.as_slice())
        };
        self.show_selection_cursor(selection, SelectionPoint { row, col }, dims);
    }

    /// Takes in what came of putting the selection into the clipboard: the message if that
    /// failed.
    pub fn report_copy(&mut self, error: Option<&str>)
        requires
            old(self)@.wf(),
        ensures
            final(self)@.wf(),
            final(self)@ == old(self)@.copy_reported(
                match error {
                    Some(message) => Some(message@),
                    None => None,
                },
            ),
    {
        let ghost before = self@;
        let selection: Selection = match self.selection {
            Some(selection) => selection,
            None => {
                return;
            },
        };
        let mut text: String = String::new();
        match error {
            Some(message) => {
                text.append("Clipboard copy failed: ");
                text.append(message);
                assert(text@ =~= "Clipboard copy failed: "@ + message@);
                self.set_status(text);
                self.mark_dirty();
            },
            None => {
                let lines: usize = selection.line_span();
                text.append("Copied ");
                push_decimal(&mut text, lines as u64);
                text.append(" displayed line");
                text.append(plural_ending(lines));
                assert(text@ =~= "Copied "@ + decimal(lines as nat) + " displayed line"@ + plural(
                    lines as nat,
                ));
                self.set_status(text);
                self.mark_dirty();
                self.selection = None;
                assert(self@ =~= before.copy_reported(None));
            },
        }
    }

    /// Searches for a text that has been typed.
    pub fn finish_search(&mut self, term: String, dims: &ViewportDims)
        requires
            old(self)@.wf(),
        ensures
            final(self)@.wf(),
            final(self)@ == old(self)@.searched(term@, *dims),
    {
        let ghost before = self@;
        self.clear_status();
        self.previous_page = None;
        self.needs_redraw = true;
        let ghost start = Pager { page: None, ..before.with_status(Seq::empty()) }.dirty();
        assert(self@ =~= start);
        if term.as_str().is_empty() {
            return;
        }
        self.viewer.search_term = Some(term.clone());
        self.viewer.last_search_forward = true;
        let ghost v = Viewer {
            search_term: Some(term@),
            last_search_forward: true,
            ..start.viewer
        };
        assert(self.viewer@ =~= v);
        let found: bool = self.viewer.search(
            term.as_str(),
            true,
            dims.height as usize,
            dims.content_width,
        );
        assert(self@ =~= start.with_viewer(
            v.searched(term@, true, dims.height as nat, dims.content_width as nat),
        ));
        let mut text: String = String::new();
        if found {
            text.append("/");
        } else {
            text.append("Pattern not found: ");
        }
        text.append(term.as_str());
        assert(text@ =~= (if found {
            "/"@ + term@
        } else {
            "Pattern not found: "@ + term@
        }));
        self.set_status(text);
    }

    fn repeat_search(&mut self, forward: bool, dims: &ViewportDims)
        requires
            old(self)@.wf(),
        ensures
            final(self)@.wf(),
            final(self)@ == old(self)@.search_repeated(forward, *dims),
    {
        let ghost before = self@;
        let _ = self.viewer.repeat_search(forward, dims.height as usize, dims.content_width);
        assert(self@ =~= before.with_viewer(
            before.viewer.search_repeated(
                forward,
                dims.height as nat,
                dims.content_width as nat,
            ),
        ));
        self.mark_dirty();
    }

    fn show_help(&mut self)
        requires
            old(self)@.wf(),
        ensures
            final(self)@.wf(),
            final(self)@ == old(self)@.with_status(page_help()).dirty(),
    {
        self.set_status(
            "j/k, C-e/C-n/C-y scroll, space/b/C-f/C-b page, d/u half-page, g/G home/end, / search, n/N repeat, v/V visual select, F follow, q quit".to_owned(),
        );
        self.mark_dirty();
    }

    fn half_step(dims: &ViewportDims) -> (r: usize)
        ensures
            r == half_height(dims.height as nat),
    {
        let rows: usize = ViewerCore::content_height(dims.height as usize);
        if rows < 2 {
            1
        } else {
            rows / 2
        }
    }

    fn handle_selection_key(&mut self, selection: Selection, key: Key, dims: &ViewportDims) -> (r:
        PageAction)
        requires
            old(self)@.wf(),
            selection.anchor.row < usize::MAX,
            selection.cursor.row < usize::MAX,
        ensures
            final(self)@.wf(),
            (final(self)@, r@) == old(self)@.selection_done(
                selection,
                pager_selection_binding(key),
                *dims,
            ),
    {
        proof {
            reveal(Pager::selection_done);
        }
        let ghost before = self@;
        match pager_selection_command(key) {
            Command::Cancel => {
                self.set_status("Selection cleared".to_owned());
                self.selection = None;
                self.needs_redraw = true;
                assert(self@ =~= Pager {
                    selection: None,
                    ..before.with_status("Selection cleared"@)
                }.dirty());
                PageAction::Continue
            },
            Command::Copy => {
                self.lay_out(dims);
                PageAction::Copy(self.viewer.selected_text(selection))
            },
            Command::Row { forward } => {
                self.move_selection_row(selection, forward, 1, dims);
                PageAction::Continue
            },
            Command::Column { forward } => {
                self.move_selection_col(selection, forward, dims);
                PageAction::Continue
            },
            Command::Page { forward } => {
                let step: usize = ViewerCore::content_height(dims.height as usize);
                self.move_selection_row(selection, forward, step, dims);
                PageAction::Continue
            },
            Command::HalfPage { forward } => {
                let step: usize = PageView::half_step(dims);
                self.move_selection_row(selection, forward, step, dims);
                PageAction::Continue
            },
            Command::LineEdge { to_end } => {
                self.move_selection_line_edge(selection, to_end, dims);
                PageAction::Continue
            },
            Command::FileEdge { to_end } => {
                self.jump_selection_file_edge(selection, to_end, dims);
                PageAction::Continue
            },
            _ => PageAction::Continue,
        }
    }

    /// Takes in a key. Returns what has to be done outside.
    pub fn handle_key(&mut self, key: Key, dims: &ViewportDims) -> (r: PageAction)
        requires
            old(self)@.wf(),
        ensures
            final(self)@.wf(),
            (final(self)@, r@) == old(self)@.key_done(key, *dims),
    {
        match self.selection {
            Some(selection) => {
                return self.handle_selection_key(selection, key, dims);
            },
            None => {},
        }
        proof {
            reveal(Pager::done);
        }
        match pager_command(key) {
            Command::Quit => PageAction::Quit,
            Command::Select(mode) => {
                self.start_selection(mode, dims);
                PageAction::Continue
            },
            Command::Row { forward } => {
                self.scroll(forward, dims);
                PageAction::Continue
            },
            Command::Page { forward } => {
                self.page(forward, dims);
                PageAction::Continue
            },
            Command::HalfPage { forward } => {
                self.half_page(forward, dims);
                PageAction::Continue
            },
            Command::FileEdge { to_end } => {
                self.jump_file_edge(to_end, dims);
                PageAction::Continue
            },
            Command::Follow => {
                self.follow(dims);
                PageAction::Continue
            },
            Command::StopFollow => {
                self.unfollow();
                self.set_status("Follow stopped".to_owned());
                self.mark_dirty();
                PageAction::Continue
            },
            Command::Reload => PageAction::Reload,
            Command::Search => PageAction::Prompt,
            Command::Repeat { forward } => {
                self.repeat_search(forward, dims);
                PageAction::Continue
            },
            Command::Help => {
                self.show_help();
                PageAction::Continue
            },
            _ => PageAction::Continue,
        }
    }

    /// Takes in an update of the log. Returns whether it brought anything.
    pub fn poll_viewer_change(&mut self, update: LogUpdate, dims: &ViewportDims) -> (r: bool)
        requires
            old(self)@.wf(),
            old(self)@.viewer.polled_offset(update) <= u64::MAX,
        ensures
            final(self)@.wf(),
            r == ReplayFile::update_changes(update),
            final(self)@ == old(self)@.updated(update, *dims),
    {
        let ghost before = self@;
        let changed: bool = self.viewer.poll(dims.height as usize, dims.content_width, update);
        assert(self@ =~= before.with_viewer(
            before.viewer.updated(update, dims.height as nat, dims.content_width as nat),
        ));
        if changed {
            self.mark_dirty();
        }
        changed
    }

    /// Shows the log as it has been read again, for a display of the given size.
    pub fn reload_for_viewport(&mut self, recording: Recording, dims: &ViewportDims)
        requires
            old(self)@.wf(),
        ensures
            final(self)@.wf(),
            final(self)@ == old(self)@.reread(recording, *dims),
    {
        self.viewer.resize_source(
            dims.source_rows,
            dims.source_cols,
            dims.height as usize,
            dims.content_width,
            recording,
        );
        self.selection = None;
        self.previous_page = None;
        self.needs_redraw = true;
        assert(self@ =~= old(self)@.reread(recording, *dims));
    }

    /// Shows the log as it has been read again on request.
    pub fn reload(&mut self, recording: Recording, dims: &ViewportDims)
        requires
            old(self)@.wf(),
        ensures
            final(self)@.wf(),
            final(self)@ == old(self)@.reread(recording, *dims).with_status("Reloaded"@),
    {
        self.reload_for_viewport(recording, dims);
        self.set_status("Reloaded".to_owned());
    }

    fn status_override_text(&self) -> (r: Option<String>)
        ensures
            match r {
                Some(text) => self@.status_override() == Some(text@),
                None => self@.status_override() is None,
            },
    {
        match self.selection {
            Some(selection) => {
                let mut text: String = selection_label(selection.mode).to_owned();
                text.append("  h/j/k/l move  0/$ line  g/G file  y copy  Esc cancel");
                assert(text@ =~= self@.status_override()->0);
                Some(text)
            },
            None => None,
        }
    }

    fn build_page(&mut self, dims: &ViewportDims) -> (r: PageSnapshot)
        requires
            old(self)@.wf(),
        ensures
            final(self)@.wf(),
            final(self)@ == old(self)@.settled(*dims),
            r@ == final(self)@.picture(*dims),
    {
        let ghost before = self@;
        self.viewer.keep_top(dims.height as usize, dims.content_width);
        assert(self@ =~= before.settled(*dims));
        let text: Option<String> = self.status_override_text();
        let status: String = match &text {
            Some(shown) => self.viewer.status_line(
                dims.height as usize,
                dims.width as usize,
                Some(shown.as_str()),
            ),
            None => self.viewer.status_line(dims.height as usize, dims.width as usize, None),
        };
        let count: usize = self.viewer.display_count();
        let total: usize = ViewerCore::content_height(dims.height as usize);
        let mut rows: Vec<Vec<Cell>> = Vec::new();
        let mut y: usize = 0;
        while y < total
            invariant
                y <= total,
                total == height(dims.height as nat),
                self@.viewer.layout is Some,
                self@.viewer.top <= self@.viewer.last_top(dims.height as nat),
                count == self@.count(),
                rows@.len() == y,
                forall|k: int| 0 <= k < y ==> (#[trigger] rows@[k])@ == self@.line(k),
            decreases total - y,
        {
            let row: usize = self.viewer.top + y;
            let mut cells: Vec<Cell> = self.viewer.row_cells(row);
            match self.selection {
                Some(selection) => {
                    apply_selection_highlight(cells.as_mut_slice(), row, &selection);
                },
                None => {},
            }
            rows.push(cells);
            y += 1;
        }
        let page = PageSnapshot { width: dims.width, height: dims.height, rows, status };
        assert(page@.rows =~= self@.picture(*dims).rows);
        page
    }

    /// Brings the display up to date: the steps that draw what has changed since the last
    /// time.
    pub fn draw(&mut self, dims: &ViewportDims) -> (r: Vec<DrawOp>)
        requires
            old(self)@.wf(),
        ensures
            final(self)@.wf(),
            final(self)@ == old(self)@.drawn(*dims),
            ops(r@) == old(self)@.drawing(*dims),
    {
        let page: PageSnapshot = self.build_page(dims);
        let ghost settled = self@;
        let steps: Vec<DrawOp> = draw_page_diff(&page, &self.previous_page);
        let ghost picture = page@;
        self.previous_page = Some(page);
        self.needs_redraw = false;
        assert(self@ =~= (Pager { page: Some(picture), needs_redraw: false, ..settled }));
        steps
    }
}

/// `n` searches forward again and `N` backward, whichever way the searches before have gone.
pub proof fn repeat_keys_keep_their_direction(view: Pager, key: Key, dims: ViewportDims)
    requires
        view.selection is None,
        key.plain('n') || key.types('N'),
    ensures
        view.key_done(key, dims) == (
            view.search_repeated(key.plain('n'), dims),
            PageAct::Continue,
        ),
        view.key_done(key, dims).0.viewer == view.viewer.search_repeated(
            key.plain('n'),
            dims.height as nat,
            dims.content_width as nat,
        ),
{
    reveal(Pager::done);
}

/// A second drawing in the same state draws nothing: the display is up to date.
pub proof fn drawing_twice_draws_nothing(pager: Pager, dims: ViewportDims)
    ensures
        pager.drawn(dims).drawing(dims) == Seq::<Op>::empty(),
{
    let s = pager.settled(dims);
    let d = pager.drawn(dims);
    crate::viewer::settling_settles(
        pager.viewer,
        dims.height as nat,
        dims.content_width as nat,
    );
    let again = d.settled(dims);
    assert(again.viewer == s.viewer);
    let page = s.picture(dims);
    assert(again.picture(dims).rows =~= page.rows);
    lemma_same_page(page, page.rows.len());
    assert(page_ops(page, Some(page)) =~= Seq::<Op>::empty());
}

proof fn lemma_same_page(page: Page, count: nat)
    requires
        count <= page.rows.len(),
    ensures
        rows_ops(page, Some(page), count) == Seq::<Op>::empty(),
    decreases count,
{
    if count > 0 {
        lemma_same_page(page, (count - 1) as nat);
    }
}

proof fn lemma_one_times(forward: bool, step: nat)
    ensures
        (if forward {
            1int
        } else {
            -1int
        }) * step == signed(forward, step),
{
    assert(1 * step == step) by (nonlinear_arith);
    assert((-1) * step == -step) by (nonlinear_arith);
}

// Dumping
// -------

/// The last `tail` lines of a text; all of them if there are no more, or no number is given.
pub open spec fn last_lines(lines: Seq<Seq<char>>, tail: Option<usize>) -> Seq<Seq<char>> {
    match tail {
        Some(count) => if count < lines.len() {
            lines.skip(lines.len() - count)
        } else {
            lines
        },
        None => lines,
    }
}

/// The text of a log as it is shown on a terminal of the given size, or its last lines.
pub fn dump_render(recording: Recording, rows: usize, cols: usize, tail: Option<usize>) -> (r: Vec<
    String,
>)
    ensures
        ({
            let replay = Replay::of(
                recording.bytes@,
                recording.events@,
                larger(1, rows as int) as nat,
                larger(1, cols as int) as nat,
            );
            r.deep_view() == last_lines(
                crate::cell::rows_text(replay.screen.history) + crate::cell::rows_text(
                    replay.screen.lines,
                ),
                tail,
            )
        }),
{
    let mut term: VirtualTerminal = VirtualTerminal::new(rows, cols);
    let mut replay: ReplayFile = ReplayFile::new(String::new());
    replay.replay_all(&mut term, recording);
    let lines: Vec<String> = term.rendered_lines();
    let start: usize = match tail {
        Some(count) => if count < lines.len() {
            lines.len() - count
        } else {
            0
        },
        None => 0,
    };
    let ghost all = lines.deep_view();
    let mut out: Vec<String> = Vec::new();
    let mut i: usize = start;
    while i < lines.len()
        invariant
            start <= i <= lines@.len(),
            all == lines.deep_view(),
            out@.len() == i - start,
            forall|k: int| 0 <= k < i - start ==> (#[trigger] out@[k])@ == all[start + k],
        decreases lines@.len() - i,
    {
        assert(all[i as int] == lines@[i as int]@);
        out.push(lines[i].clone());
        i += 1;
    }
    assert(out.deep_view() =~= last_lines(all, tail));
    out
}

// Laws
// ----

/// Whether a key moves the free end of a selection to a row, keeps all else of it, and
/// shows the row.
pub open spec fn moves_selection_to(
    pager: Pager,
    key: Key,
    dims: ViewportDims,
    row: int,
) -> bool {
    let (after, act) = pager.key_done(key, dims);
    let before = pager.selection->0;
    let now = after.selection->0;
    &&& act == PageAct::Continue
    &&& after.selection is Some
    &&& now.mode == before.mode
    &&& now.anchor == before.anchor
    &&& now.cursor.row == row
    &&& after.viewer.top <= row
    &&& dims.height > 2 ==> row < after.viewer.top + dims.height - 1
    &&& after.needs_redraw
}

/// The row that is so many rows further down, or the last one.
pub open spec fn row_below(row: int, amount: int, count: nat) -> int {
    if row + amount < count {
        row + amount
    } else {
        count - 1
    }
}

/// The row that is so many rows further up, or the first one.
pub open spec fn row_above(row: int, amount: int) -> int {
    if amount < row {
        row - amount
    } else {
        0
    }
}

/// The rows of a page: all of the display but the status line.
pub open spec fn page_rows(dims: ViewportDims) -> int {
    if dims.height <= 1 {
        1
    } else {
        dims.height - 1
    }
}

/// While something is selected, the keys for down and up move the free end of the selection
/// by one row, as far as there are rows; the keys for pages and half pages move it by as
/// many rows as they scroll by otherwise.
pub proof fn selection_keys_move_the_free_end(pager: Pager, key: Key, dims: ViewportDims)
    requires
        pager.wf(),
        pager.selection is Some,
        pager.laid(dims).count() <= usize::MAX,
        pager.selection->0.cursor.row < pager.laid(dims).count(),
    ensures
        ({
            let row = pager.selection->0.cursor.row as int;
            let count = pager.laid(dims).count();
            let half = if page_rows(dims) < 2 {
                1
            } else {
                page_rows(dims) / 2
            };
            &&& pressed(key, 'j') || key.code == KeyCode::Down || with_control(key, 'n')
                || with_control(key, 'e') ==> moves_selection_to(
                pager,
                key,
                dims,
                row_below(row, 1, count),
            )
            &&& pressed(key, 'k') || key.code == KeyCode::Up || with_control(key, 'y')
                ==> moves_selection_to(pager, key, dims, row_above(row, 1))
            &&& pressed(key, ' ') || pressed(key, 'f') || with_control(key, 'f') || key.code
                == KeyCode::PageDown ==> moves_selection_to(
                pager,
                key,
                dims,
                row_below(row, page_rows(dims), count),
            )
            &&& pressed(key, 'b') || with_control(key, 'b') || key.code == KeyCode::PageUp
                ==> moves_selection_to(pager, key, dims, row_above(row, page_rows(dims)))
            &&& pressed(key, 'd') || with_control(key, 'd') ==> moves_selection_to(
                pager,
                key,
                dims,
                row_below(row, half, count),
            )
            &&& pressed(key, 'u') || with_control(key, 'u') ==> moves_selection_to(
                pager,
                key,
                dims,
                row_above(row, half),
            )
            &&& pressed(key, 'g') || key.code == KeyCode::Home ==> moves_selection_to(
                pager,
                key,
                dims,
                0,
            )
            &&& key.code == KeyCode::Char('G') || key.code == KeyCode::End ==> moves_selection_to(
                pager,
                key,
                dims,
                count - 1,
            )
        }),
{
    reveal(Pager::selection_done);
    crate::viewer::a_log_has_rows(pager.viewer, dims.content_width as nat);
}

/// The last lines are the end of the lines, as many as asked for and there are.
pub proof fn the_last_lines_are_dumped(lines: Seq<Seq<char>>, tail: usize, i: int)
    ensures
        last_lines(lines, None) == lines,
        last_lines(lines, Some(tail)).len() == (if tail < lines.len() {
            tail as nat
        } else {
            lines.len()
        }),
        0 <= i < last_lines(lines, Some(tail)).len() ==> last_lines(lines, Some(tail))[i]
            == lines[lines.len() - last_lines(lines, Some(tail)).len() + i],
{
}

/// Searching for a text that has been typed is searching forward for it again; a text that is
/// empty changes nothing but the status. Either way everything is drawn anew.
pub proof fn typed_searches_go_forward(pager: Pager, term: Seq<char>, dims: ViewportDims)
    ensures
        ({
            let after = pager.searched(term, dims);
            &&& term.len() > 0 ==> after.viewer == (Viewer {
                search_term: Some(term),
                ..pager.viewer
            }).search_repeated(true, dims.height as nat, dims.content_width as nat)
            &&& term.len() == 0 ==> after.viewer == (Viewer {
                status: Seq::empty(),
                ..pager.viewer
            })
            &&& after.page is None
            &&& after.needs_redraw
            &&& after.selection == pager.selection
        }),
{
    reveal(Viewer::search_repeated);
    reveal(Viewer::searched);
    reveal(Viewer::ensured);
}

/// An update that brings something asks for a new drawing, and leaves a selection alone; one
/// that brings nothing changes nothing.
pub proof fn updates_ask_for_a_drawing(pager: Pager, update: LogUpdate, dims: ViewportDims)
    ensures
        ({
            let after = pager.updated(update, dims);
            &&& update matches LogUpdate::Appended(bytes) ==> bytes@.len() > 0
                ==> after.needs_redraw
            &&& update is Replaced ==> after.needs_redraw
            &&& update is Unchanged ==> after == pager
            &&& after.selection == pager.selection
            &&& after.page == pager.page
        }),
{
    crate::viewer::updates_leave_the_view_in_place(
        pager.viewer,
        update,
        dims.height as nat,
        dims.content_width as nat,
    );
}

/// Copying to the clipboard ends the selection if it succeeds, and keeps it otherwise; either
/// way the status tells.
pub proof fn copying_ends_the_selection(pager: Pager, error: Option<Seq<char>>)
    requires
        pager.selection is Some,
    ensures
        ({
            let after = pager.copy_reported(error);
            &&& error is None ==> after.selection is None
            &&& error is Some ==> after.selection == pager.selection
            &&& after.viewer.status.len() > 0
            &&& after.needs_redraw
            &&& after.viewer == (Viewer { status: after.viewer.status, ..pager.viewer })
        }),
{
    reveal_strlit("Copied ");
    reveal_strlit("Clipboard copy failed: ");
}

/// After a copy the status tells how many rows the selection touches.
pub proof fn copied_rows_are_counted(pager: Pager, selection: Selection)
    requires
        pager.selection == Some(selection),
    ensures
        ({
            let status = pager.copy_reported(None).viewer.status;
            let (one, other) = (selection.anchor.row, selection.cursor.row);
            let n = if one <= other {
                (other - one + 1) as nat
            } else {
                (one - other + 1) as nat
            };
            status == "Copied "@ + decimal(n) + " displayed line"@ + (if one == other {
                ""@
            } else {
                "s"@
            })
        }),
{
}

/// A log that is read again is replayed on a terminal of the size asked for, without a
/// selection, and the next drawing draws everything.
pub proof fn a_log_is_read_again(pager: Pager, recording: Recording, dims: ViewportDims)
    requires
        dims.source_rows > 0,
        dims.source_cols > 0,
    ensures
        ({
            let after = pager.reread(recording, dims);
            let last = after.viewer.last_top(dims.height as nat);
            &&& after.viewer.replay == Replay::of(
                recording.bytes@,
                recording.events@,
                dims.source_rows as nat,
                dims.source_cols as nat,
            )
            &&& after.viewer.follow == pager.viewer.follow
            &&& pager.viewer.follow ==> after.viewer.top == last
            &&& !pager.viewer.follow && pager.viewer.top <= last ==> after.viewer.top
                == pager.viewer.top
            &&& after.selection is None
            &&& after.page is None
            &&& after.needs_redraw
        }),
{
    crate::viewer::a_new_size_keeps_the_view(
        pager.viewer,
        dims.source_rows as nat,
        dims.source_cols as nat,
        dims.height as nat,
        dims.content_width as nat,
        recording,
    );
}

} // verus!
