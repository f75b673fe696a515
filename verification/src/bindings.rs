//! What the keys do in the two views.

use crate::commands::{left_binding, pager_binding, Command, ScreenPosition};
use crate::keys::{pressed, with_control, Key, KeyCode};
use crate::pager::{page_rows, row_above, row_below, PageAct, Pager, ViewportDims};
use crate::selection::{
    column_before, column_behind, first_column, last_column, normal_column, selected_text,
    word_target, Selection, SelectionMode, SelectionPoint, WordMotion,
};
use crate::split_model::{Act, Focus, Split, SplitDims};
use crate::viewer::{a_log_has_rows, Viewer};
use vstd::prelude::*;

verus! {

/// The last row that can be at the top of a view of so many rows.
pub open spec fn last_start(count: nat, rows: int) -> int {
    if count <= rows {
        0
    } else {
        count - rows
    }
}

/// Half of a page, at least one row.
pub open spec fn half_page(rows: int) -> int {
    if rows < 2 {
        1
    } else {
        rows / 2
    }
}

/// The keys for one row down in both views.
pub open spec fn means_down(key: Key) -> bool {
    pressed(key, 'j') || key.code == KeyCode::Down || with_control(key, 'n')
}

/// The keys for one row up in both views.
pub open spec fn means_up(key: Key) -> bool {
    pressed(key, 'k') || key.code == KeyCode::Up
}

/// The keys for one page down in both views.
pub open spec fn means_page_down(key: Key) -> bool {
    pressed(key, ' ') || pressed(key, 'f') || with_control(key, 'f') || key.code
        == KeyCode::PageDown
}

/// The keys for one page up in both views.
pub open spec fn means_page_up(key: Key) -> bool {
    with_control(key, 'b') || key.code == KeyCode::PageUp
}

/// The keys for half a page down.
pub open spec fn means_half_down(key: Key) -> bool {
    pressed(key, 'd') || with_control(key, 'd')
}

/// The keys for half a page up.
pub open spec fn means_half_up(key: Key) -> bool {
    pressed(key, 'u') || with_control(key, 'u')
}

/// The keys for the start of the log.
pub open spec fn means_start(key: Key) -> bool {
    pressed(key, 'g') || key.code == KeyCode::Home
}

/// The keys for the end of the log.
pub open spec fn means_end(key: Key) -> bool {
    key.code == KeyCode::Char('G') || key.code == KeyCode::End
}

// The standalone viewer
// ---------------------

/// Whether a key puts a row at the top of the view, and ends following.
pub open spec fn scrolls_to(pager: Pager, key: Key, dims: ViewportDims, top: int) -> bool {
    let (after, act) = pager.key_done(key, dims);
    &&& act == PageAct::Continue
    &&& after.selection is None
    &&& after.viewer.top == top
    &&& !after.viewer.follow
    &&& after.viewer.status.len() == 0
    &&& after.viewer.replay == pager.viewer.replay
    &&& after.viewer.search_term == pager.viewer.search_term
    &&& after.needs_redraw || top == pager.viewer.top
}

/// Without a selection the keys scroll the view by rows, pages and half pages, as far as
/// the log goes, or to its start or end.
pub proof fn keys_scroll_the_log(pager: Pager, key: Key, dims: ViewportDims)
    requires
        pager.wf(),
        pager.selection is None,
        pager.viewer.top <= last_start(pager.laid(dims).count(), page_rows(dims)),
    ensures
        ({
            let top = pager.viewer.top as int;
            let rows = page_rows(dims);
            let last = last_start(pager.laid(dims).count(), rows);
            let ends = (last + 1) as nat;
            &&& means_down(key) || key.code == KeyCode::Enter || with_control(key, 'e')
                ==> scrolls_to(pager, key, dims, row_below(top, 1, ends))
            &&& means_up(key) || with_control(key, 'y') ==> scrolls_to(
                pager,
                key,
                dims,
                row_above(top, 1),
            )
            &&& means_page_down(key) ==> scrolls_to(pager, key, dims, row_below(top, rows, ends))
            &&& means_page_up(key) || pressed(key, 'b') ==> scrolls_to(
                pager,
                key,
                dims,
                row_above(top, rows),
            )
            &&& means_half_down(key) ==> scrolls_to(
                pager,
                key,
                dims,
                row_below(top, half_page(rows), ends),
            )
            &&& means_half_up(key) ==> scrolls_to(
                pager,
                key,
                dims,
                row_above(top, half_page(rows)),
            )
            &&& means_start(key) ==> scrolls_to(pager, key, dims, 0)
            &&& means_end(key) ==> scrolls_to(pager, key, dims, last)
        }),
{
    reveal(Pager::done);
    reveal(Viewer::ensured);
}

#[verifier::rlimit(40)]
proof fn lemma_viewer_commands(pager: Pager, command: Command, dims: ViewportDims)
    requires
        pager.selection is None,
    ensures
        ({
            let (after, act) = pager.done(command, dims);
            let last = last_start(pager.laid(dims).count(), page_rows(dims));
            &&& act == PageAct::Quit <==> command == Command::Quit
            &&& act == PageAct::Prompt <==> command == Command::Search
            &&& act == PageAct::Reload <==> command == Command::Reload
            &&& !(act is Copy)
            &&& act != PageAct::Continue ==> after == pager
            &&& command == Command::Follow ==> after.viewer.follow && after.viewer.top == last
            &&& command == Command::StopFollow ==> !after.viewer.follow && after.viewer.top
                == pager.viewer.top
            &&& after.selection matches Some(selection) ==> {
                &&& command == Command::Select(selection.mode)
                &&& selection.anchor == selection.cursor
                &&& !after.viewer.follow
                &&& after.viewer.top == pager.viewer.top
            }
            &&& after.selection is Some <==> command is Select
            &&& command == Command::Ignore ==> after == pager
            &&& command == Command::Help ==> after == (Pager {
                viewer: Viewer { status: after.viewer.status, ..pager.viewer },
                needs_redraw: true,
                ..pager
            })
        }),
{
    reveal(Pager::done);
    match command {
        Command::Follow => {
            reveal(Viewer::ensured);
        },
        Command::Select(mode) => {
            reveal(Viewer::ensured);
        },
        _ => {},
    }
}

/// The other keys of the standalone viewer: what asks for something outside, what starts
/// and stops following, and what starts a selection. No other key than `q` quits, and keys
/// without a meaning change nothing.
pub proof fn keys_of_the_viewer(pager: Pager, key: Key, dims: ViewportDims)
    requires
        pager.wf(),
        pager.selection is None,
    ensures
        ({
            let (after, act) = pager.key_done(key, dims);
            let last = last_start(pager.laid(dims).count(), page_rows(dims));
            &&& act == PageAct::Quit <==> key.code == KeyCode::Char('q') || key.code
                == KeyCode::Char('Q')
            &&& act == PageAct::Prompt <==> pressed(key, '/')
            &&& act == PageAct::Reload <==> pressed(key, 'r')
            &&& !(act is Copy)
            &&& act != PageAct::Continue ==> after == pager
            &&& key.code == KeyCode::Char('F') ==> after.viewer.follow && after.viewer.top == last
                && after.selection is None
            &&& with_control(key, 'c') ==> !after.viewer.follow && after.viewer.top
                == pager.viewer.top && after.selection is None
            &&& pressed(key, 'v') ==> after.selection is Some && after.selection->0.mode
                == SelectionMode::Character
            &&& key.code == KeyCode::Char('V') ==> after.selection is Some
                && after.selection->0.mode == SelectionMode::Line
            &&& after.selection matches Some(selection) ==> selection.anchor == selection.cursor
                && !after.viewer.follow && after.viewer.top == pager.viewer.top
            &&& after.selection is Some <==> pressed(key, 'v') || key.code == KeyCode::Char('V')
            &&& key.code == KeyCode::Esc || key.code == KeyCode::Left || key.code == KeyCode::Right
                || key.code == KeyCode::Tab || key.code == KeyCode::Backspace || key.code
                == KeyCode::Delete || key.code == KeyCode::Insert || key.code == KeyCode::Other
                ==> after == pager
            &&& pressed(key, 'h') || key.code == KeyCode::Char('?') ==> after == (Pager {
                viewer: Viewer { status: after.viewer.status, ..pager.viewer },
                needs_redraw: true,
                ..pager
            })
        }),
{
    lemma_viewer_commands(pager, pager_binding(key), dims);
}

/// A selection starts in the first row of the view that shows anything, at the first
/// character that is no blank.
pub proof fn selections_start_in_view(pager: Pager, key: Key, dims: ViewportDims, row: int)
    requires
        pager.wf(),
        pager.selection is None,
        pressed(key, 'v') || key.code == KeyCode::Char('V'),
        pager.laid(dims).count() <= usize::MAX,
        pager.viewer.top < pager.laid(dims).count(),
        pager.viewer.top <= row < pager.viewer.top + page_rows(dims),
        row < pager.laid(dims).count(),
        pager.laid(dims).viewer.row_cells(row).len() > 0,
    ensures
        ({
            let laid = pager.laid(dims);
            let start = pager.key_done(key, dims).0.selection->0.anchor;
            &&& pager.viewer.top <= start.row <= row
            &&& laid.viewer.row_cells(start.row as int).len() > 0
            &&& start.col == first_column(laid.viewer.row_cells(start.row as int)) as usize
        }),
{
    reveal(Pager::done);
    reveal(Viewer::ensured);
    let s = pager.unfollowed().laid(dims);
    assert(s.viewer.layout == pager.laid(dims).viewer.layout);
    lemma_first_filled(
        s.viewer,
        s.viewer.top as int,
        s.viewer.view_end(dims.height as nat) as int,
        s.viewer.top_row() as int,
        row,
    );
}

proof fn lemma_first_filled(viewer: Viewer, from: int, to: int, default: int, row: int)
    requires
        from <= row < to,
        viewer.row_cells(row).len() > 0,
    ensures
        ({
            let found = viewer.first_filled(from, to, default);
            &&& from <= found <= row
            &&& viewer.row_cells(found).len() > 0
            &&& forall|i: int| from <= i < found ==> (#[trigger] viewer.row_cells(i)).len() == 0
        }),
    decreases to - from,
{
    if viewer.row_cells(from).len() == 0 {
        lemma_first_filled(viewer, from + 1, to, default, row);
    }
}

/// While something is selected, the keys for left and right move the free end by one
/// character, and those for the edges of the row to its start or its last character; the
/// copy keys hand out the selected text, escape gives the selection up, and no key quits.
pub proof fn selection_keys_of_the_viewer(pager: Pager, key: Key, dims: ViewportDims)
    requires
        pager.wf(),
        pager.selection is Some,
    ensures
        ({
            let (after, act) = pager.key_done(key, dims);
            let before = pager.selection->0;
            let now = after.selection->0;
            let row = pager.laid(dims).viewer.row_cells(before.cursor.row as int);
            let col = before.cursor.col as int;
            let at = |to: int| SelectionPoint { row: before.cursor.row, col: to as usize };
            &&& pressed(key, 'h') || key.code == KeyCode::Left ==> after.selection == Some(
                Selection { cursor: at(column_before(row, col)), ..before },
            )
            &&& pressed(key, 'l') || key.code == KeyCode::Right ==> after.selection == Some(
                Selection { cursor: at(column_behind(row, col)), ..before },
            )
            &&& pressed(key, '0') ==> after.selection == Some(
                Selection { cursor: at(0), ..before },
            )
            &&& key.code == KeyCode::Char('$') ==> after.selection == Some(
                Selection { cursor: at(last_column(row)), ..before },
            )
            &&& pressed(key, 'y') || key.code == KeyCode::Char('Y') ==> {
                &&& act == PageAct::Copy(selected_text(before, pager.laid(dims).viewer.table()))
                &&& after.selection == pager.selection
            }
            &&& act is Copy <==> pressed(key, 'y') || key.code == KeyCode::Char('Y')
            &&& after.selection is None <==> key.code == KeyCode::Esc
            &&& key.code == KeyCode::Esc ==> act == PageAct::Continue && after.viewer.top
                == pager.viewer.top
            &&& act == PageAct::Continue || act is Copy
            &&& after.selection is Some ==> now.mode == before.mode && now.anchor == before.anchor
            &&& key.code == KeyCode::Char('q') || key.code == KeyCode::Char('/') || key.code
                == KeyCode::Enter || key.code == KeyCode::Tab || key.code == KeyCode::Other
                ==> after == pager && act == PageAct::Continue
        }),
{
    reveal(Pager::selection_done);
    a_log_has_rows(pager.viewer, dims.content_width as nat);
}

// The log pane
// ------------

/// The rows of the log pane: all of the display but the status line.
pub open spec fn pane_rows(dims: SplitDims) -> int {
    if dims.rows <= 1 {
        1
    } else {
        dims.rows - 1
    }
}

/// A split view whose log pane takes in keys.
pub open spec fn log_has_keys(view: Split, dims: SplitDims) -> bool {
    &&& view.wf()
    &&& view.focus == Focus::Left
    &&& view.selection is None
    &&& !view.prefix_pending
    &&& !view.switch_prefix_pending
    &&& view.laid(dims).count() <= usize::MAX
    &&& view.cursor.row < view.laid(dims).count()
}

/// Whether a key moves the cursor of the log pane to a row, shows the row, and ends
/// following.
pub open spec fn moves_cursor_to(view: Split, key: Key, dims: SplitDims, row: int) -> bool {
    let (after, act) = view.key_done(key, dims);
    &&& act == Act::Continue
    &&& after.selection is None
    &&& after.cursor.row == row
    &&& after.left.top <= row < after.left.top + pane_rows(dims)
    &&& !after.left.follow
    &&& after.left.status.len() == 0
    &&& after.focus == view.focus
    &&& after.right == view.right
}

proof fn lemma_row_moved(view: Split, amount: int, dims: SplitDims)
    requires
        log_has_keys(view, dims),
    ensures
        ({
            let after = view.row_moved(amount, dims);
            let count = view.laid(dims).count();
            let row = if view.cursor.row + amount < 0 {
                0
            } else if view.cursor.row + amount < count {
                view.cursor.row + amount
            } else {
                count - 1
            };
            &&& after.cursor.row == row
            &&& after.left.top <= row < after.left.top + pane_rows(dims)
            &&& !after.left.follow
            &&& after.left.status.len() == 0
            &&& after.focus == view.focus
            &&& after.right == view.right
            &&& after.selection == view.selection
        }),
{
    reveal(Viewer::ensured);
    let s = view.unfollowed().laid(dims);
    assert(s.left.layout == view.laid(dims).left.layout);
}

/// Whether a command moves by so many rows.
spec fn moves_by(command: Command, amount: int, dims: SplitDims) -> bool {
    let rows = pane_rows(dims);
    ||| command == Command::Row { forward: true } && amount == 1
    ||| command == Command::Row { forward: false } && amount == -1
    ||| command == Command::Page { forward: true } && amount == rows
    ||| command == Command::Page { forward: false } && amount == -rows
    ||| command == Command::HalfPage { forward: true } && amount == half_page(rows)
    ||| command == Command::HalfPage { forward: false } && amount == -half_page(rows)
}

#[verifier::rlimit(60)]
proof fn lemma_left_rows(view: Split, command: Command, amount: int, dims: SplitDims)
    requires
        moves_by(command, amount, dims),
    ensures
        view.left_done(command, dims) == (view.row_moved(amount, dims), Act::Continue),
{
    assert(crate::viewer::height(dims.rows as nat) == pane_rows(dims));
    assert(crate::viewer::half_height(dims.rows as nat) == half_page(pane_rows(dims)));
    match command {
        Command::Row { forward } => {
            assert(crate::split_model::signed(forward, 1) == amount);
            reveal(Split::left_done);
        },
        Command::Page { forward } => {
            assert(crate::split_model::signed(
                forward,
                crate::viewer::height(dims.rows as nat),
            ) == amount);
            reveal(Split::left_done);
        },
        Command::HalfPage { forward } => {
            assert(crate::split_model::signed(
                forward,
                crate::viewer::half_height(dims.rows as nat),
            ) == amount);
            reveal(Split::left_done);
        },
        _ => {},
    }
}

/// In the log pane the keys move the cursor by rows, pages and half pages, as far as the log
/// goes, or to its start or end, and the view goes with it.
pub proof fn keys_move_the_cursor_by_rows(view: Split, key: Key, dims: SplitDims)
    requires
        log_has_keys(view, dims),
    ensures
        ({
            let row = view.cursor.row as int;
            let rows = pane_rows(dims);
            let count = view.laid(dims).count();
            &&& means_down(key) || key.code == KeyCode::Enter ==> moves_cursor_to(
                view,
                key,
                dims,
                row_below(row, 1, count),
            )
            &&& means_up(key) ==> moves_cursor_to(view, key, dims, row_above(row, 1))
            &&& means_page_down(key) ==> moves_cursor_to(
                view,
                key,
                dims,
                row_below(row, rows, count),
            )
            &&& means_page_up(key) ==> moves_cursor_to(view, key, dims, row_above(row, rows))
            &&& means_half_down(key) ==> moves_cursor_to(
                view,
                key,
                dims,
                row_below(row, half_page(rows), count),
            )
            &&& means_half_up(key) ==> moves_cursor_to(
                view,
                key,
                dims,
                row_above(row, half_page(rows)),
            )
        }),
{
    let rows = pane_rows(dims);
    if means_down(key) || key.code == KeyCode::Enter {
        lemma_row_key(view, key, Command::Row { forward: true }, 1, dims);
    } else if means_up(key) {
        lemma_row_key(view, key, Command::Row { forward: false }, -1, dims);
    } else if means_page_down(key) {
        lemma_row_key(view, key, Command::Page { forward: true }, rows, dims);
    } else if means_page_up(key) {
        lemma_row_key(view, key, Command::Page { forward: false }, -rows, dims);
    } else if means_half_down(key) {
        lemma_row_key(view, key, Command::HalfPage { forward: true }, half_page(rows), dims);
    } else if means_half_up(key) {
        lemma_row_key(view, key, Command::HalfPage { forward: false }, -half_page(rows), dims);
    }
}

#[verifier::rlimit(60)]
proof fn lemma_row_key(view: Split, key: Key, command: Command, amount: int, dims: SplitDims)
    requires
        log_has_keys(view, dims),
        left_binding(key) == command,
        !with_control(key, 'w'),
        !with_control(key, 'g'),
        moves_by(command, amount, dims),
    ensures
        ({
            let row = view.cursor.row as int;
            let count = view.laid(dims).count();
            moves_cursor_to(
                view,
                key,
                dims,
                if amount >= 0 {
                    row_below(row, amount, count)
                } else {
                    row_above(row, -amount)
                },
            )
        }),
{
    lemma_left_rows(view, command, amount, dims);
    lemma_row_moved(view, amount, dims);
    lemma_left_key(view, key, dims);
    assert(view.key_done(key, dims) == (view.row_moved(amount, dims), Act::Continue));
}

proof fn lemma_left_key(view: Split, key: Key, dims: SplitDims)
    requires
        log_has_keys(view, dims),
        !with_control(key, 'w'),
        !with_control(key, 'g'),
    ensures
        view.key_done(key, dims) == view.left_done(left_binding(key), dims),
{
}

/// The keys for the start and the end of the log go to its first or last row, and those for
/// the screen to the top, the middle or the bottom row that the view shows.
pub proof fn keys_move_the_cursor_to_edges(view: Split, key: Key, dims: SplitDims)
    requires
        log_has_keys(view, dims),
        view.left.top <= last_start(view.laid(dims).count(), pane_rows(dims)),
    ensures
        ({
            let count = view.laid(dims).count();
            let (after, act) = view.key_done(key, dims);
            let top = view.left.top as int;
            let end = if top + pane_rows(dims) < count {
                top + pane_rows(dims)
            } else {
                count as int
            };
            &&& means_start(key) ==> moves_cursor_to(view, key, dims, 0)
            &&& means_end(key) ==> moves_cursor_to(view, key, dims, count - 1)
            &&& key.code == KeyCode::Char('H') ==> moves_cursor_to(view, key, dims, top)
            &&& key.code == KeyCode::Char('L') ==> moves_cursor_to(view, key, dims, end - 1)
            &&& key.code == KeyCode::Char('M') ==> {
                &&& moves_cursor_to(view, key, dims, after.cursor.row as int)
                &&& top <= after.cursor.row < end
                &&& 0 <= (end - 1 - after.cursor.row) - (after.cursor.row - top) <= 1
            }
            &&& key.code == KeyCode::Char('H') || key.code == KeyCode::Char('M') || key.code
                == KeyCode::Char('L') ==> after.left.top == view.left.top
            &&& means_start(key) || key.code == KeyCode::Char('H') || key.code == KeyCode::Char('M')
                || key.code == KeyCode::Char('L') ==> after.cursor.col == first_column(
                view.laid(dims).left.row_cells(after.cursor.row as int),
            ) as usize
            &&& means_end(key) ==> after.cursor.col == last_column(
                view.laid(dims).left.row_cells(count - 1),
            ) as usize
        }),
{
    if means_start(key) {
        lemma_left_key(view, key, dims);
        lemma_edges(view, false, ScreenPosition::Top, dims);
    } else if means_end(key) {
        lemma_left_key(view, key, dims);
        lemma_edges(view, true, ScreenPosition::Top, dims);
    } else if key.code == KeyCode::Char('H') {
        lemma_left_key(view, key, dims);
        lemma_edges(view, true, ScreenPosition::Top, dims);
    } else if key.code == KeyCode::Char('M') {
        lemma_left_key(view, key, dims);
        lemma_edges(view, true, ScreenPosition::Middle, dims);
    } else if key.code == KeyCode::Char('L') {
        lemma_left_key(view, key, dims);
        lemma_edges(view, true, ScreenPosition::Bottom, dims);
    }
}

/// Whether the cursor of the log pane is on a row in view, with following ended.
spec fn cursor_is_on(after: Split, view: Split, dims: SplitDims, row: int) -> bool {
    &&& after.selection is None
    &&& after.cursor.row == row
    &&& after.left.top <= row < after.left.top + pane_rows(dims)
    &&& !after.left.follow
    &&& after.left.status.len() == 0
    &&& after.focus == view.focus
    &&& after.right == view.right
}

#[verifier::rlimit(40)]
proof fn lemma_edges(view: Split, to_end: bool, position: ScreenPosition, dims: SplitDims)
    requires
        log_has_keys(view, dims),
        view.left.top <= last_start(view.laid(dims).count(), pane_rows(dims)),
    ensures
        ({
            let count = view.laid(dims).count();
            let edge = view.left_done(Command::FileEdge { to_end }, dims);
            let row = if to_end {
                count - 1
            } else {
                0
            };
            let cells = view.laid(dims).left.row_cells(row);
            &&& edge.1 == Act::Continue
            &&& cursor_is_on(edge.0, view, dims, row)
            &&& edge.0.cursor.col == (if to_end {
                last_column(cells)
            } else {
                first_column(cells)
            }) as usize
            &&& cursor_is_placed(view, position, dims)
        }),
{
    reveal(Split::left_done);
    a_log_has_rows(view.left, dims.left_cols as nat);
    let s = view.unfollowed().laid(dims);
    assert(s.left == Viewer { follow: false, ..view.laid(dims).left }) by {
        reveal(Viewer::ensured);
    }
    assert(view.laid(dims).left.top == view.left.top) by {
        reveal(Viewer::ensured);
    }
}

/// Whether the keys for the screen put the cursor on the right row.
spec fn cursor_is_placed(view: Split, position: ScreenPosition, dims: SplitDims) -> bool {
    let count = view.laid(dims).count();
    let top = view.left.top as int;
    let end = if top + pane_rows(dims) < count {
        top + pane_rows(dims)
    } else {
        count as int
    };
    let (after, act) = view.left_done(Command::Screen(position), dims);
    let row = after.cursor.row as int;
    &&& act == Act::Continue
    &&& cursor_is_on(after, view, dims, row)
    &&& after.left.top == top
    &&& top <= row < end
    &&& after.cursor.col == first_column(view.laid(dims).left.row_cells(row)) as usize
    &&& match position {
        ScreenPosition::Top => row == top,
        ScreenPosition::Middle => 0 <= (end - 1 - row) - (row - top) <= 1,
        ScreenPosition::Bottom => row == end - 1,
    }
}

/// The keys for columns and words move the cursor in its row, or on to other rows by words.
pub proof fn keys_move_the_cursor_in_its_row(view: Split, key: Key, dims: SplitDims)
    requires
        log_has_keys(view, dims),
    ensures
        ({
            let (after, act) = view.key_done(key, dims);
            let laid = view.laid(dims);
            let cells = laid.left.row_cells(view.cursor.row as int);
            let col = normal_column(cells, view.cursor.col as int) as usize;
            let from = SelectionPoint { row: view.cursor.row, col };
            let at = |to: int| SelectionPoint { row: view.cursor.row, col: to as usize };
            let word = |motion: WordMotion|
                word_target(laid.left.table(), laid.count() as int, from, motion);
            &&& pressed(key, 'h') || key.code == KeyCode::Left ==> after.cursor == at(
                column_before(cells, col as int),
            )
            &&& pressed(key, 'l') || key.code == KeyCode::Right ==> after.cursor == at(
                column_behind(cells, col as int),
            )
            &&& pressed(key, '0') ==> after.cursor == at(0)
            &&& key.code == KeyCode::Char('$') ==> after.cursor == at(last_column(cells))
            &&& pressed(key, 'w') ==> after.cursor == word(WordMotion::ForwardStart)
            &&& pressed(key, 'e') ==> after.cursor == word(WordMotion::ForwardEnd)
            &&& pressed(key, 'b') ==> after.cursor == word(WordMotion::BackwardStart)
            &&& pressed(key, 'h') || pressed(key, 'l') || pressed(key, '0') || pressed(key, 'w')
                || pressed(key, 'e') || pressed(key, 'b') || key.code == KeyCode::Left || key.code
                == KeyCode::Right || key.code == KeyCode::Char('$') ==> {
                &&& act == Act::Continue
                &&& !after.left.follow
                &&& after.left.status.len() == 0
                &&& after.selection is None
                &&& after.right == view.right
            }
        }),
{
    if pressed(key, 'w') {
        lemma_left_key(view, key, dims);
        lemma_words(view, WordMotion::ForwardStart, dims);
    } else if pressed(key, 'e') {
        lemma_left_key(view, key, dims);
        lemma_words(view, WordMotion::ForwardEnd, dims);
    } else if pressed(key, 'b') {
        lemma_left_key(view, key, dims);
        lemma_words(view, WordMotion::BackwardStart, dims);
    } else if pressed(key, 'h') || key.code == KeyCode::Left || pressed(key, '0') {
        lemma_left_key(view, key, dims);
        lemma_columns(view, false, dims);
    } else if pressed(key, 'l') || key.code == KeyCode::Right || key.code == KeyCode::Char('$') {
        lemma_left_key(view, key, dims);
        lemma_columns(view, true, dims);
    }
}

/// Whether the view has not moved the cursor by more than a motion, with following ended.
spec fn motion_is_done(after: Split, act: Act, view: Split) -> bool {
    &&& act == Act::Continue
    &&& !after.left.follow
    &&& after.left.status.len() == 0
    &&& after.selection is None
    &&& after.right == view.right
}

#[verifier::rlimit(40)]
proof fn lemma_words(view: Split, motion: WordMotion, dims: SplitDims)
    requires
        log_has_keys(view, dims),
    ensures
        ({
            let (after, act) = view.left_done(Command::Word(motion), dims);
            let laid = view.laid(dims);
            let cells = laid.left.row_cells(view.cursor.row as int);
            let col = normal_column(cells, view.cursor.col as int) as usize;
            let from = SelectionPoint { row: view.cursor.row, col };
            &&& motion_is_done(after, act, view)
            &&& after.cursor == word_target(
                laid.left.table(),
                laid.count() as int,
                from,
                motion,
            )
        }),
{
    reveal(Split::left_done);
    a_log_has_rows(view.left, dims.left_cols as nat);
    let s = view.unfollowed().laid(dims);
    assert(s.left == Viewer { follow: false, ..view.laid(dims).left }) by {
        reveal(Viewer::ensured);
    }
    assert(s.left.table() =~= view.laid(dims).left.table());
}

#[verifier::rlimit(40)]
proof fn lemma_columns(view: Split, forward: bool, dims: SplitDims)
    requires
        log_has_keys(view, dims),
    ensures
        ({
            let laid = view.laid(dims);
            let cells = laid.left.row_cells(view.cursor.row as int);
            let col = normal_column(cells, view.cursor.col as int) as usize;
            let (stepped, act) = view.left_done(Command::Column { forward }, dims);
            let (edged, edge_act) = view.left_done(Command::LineEdge { to_end: forward }, dims);
            &&& motion_is_done(stepped, act, view)
            &&& motion_is_done(edged, edge_act, view)
            &&& stepped.cursor.row == view.cursor.row
            &&& edged.cursor.row == view.cursor.row
            &&& stepped.cursor.col == (if forward {
                column_behind(cells, col as int)
            } else {
                column_before(cells, col as int)
            }) as usize
            &&& edged.cursor.col == (if forward {
                last_column(cells)
            } else {
                0
            }) as usize
        }),
{
    reveal(Split::left_done);
    a_log_has_rows(view.left, dims.left_cols as nat);
    let s = view.unfollowed().laid(dims);
    assert(s.left == Viewer { follow: false, ..view.laid(dims).left }) by {
        reveal(Viewer::ensured);
    }
    assert(view.unfollowed().normalized(dims) == s.with_cursor(s.normal_cursor()));
}

/// The other keys of the log pane: scrolling the view, following, selecting, pasting, and
/// what asks for something outside.
pub proof fn keys_of_the_log_pane(view: Split, key: Key, dims: SplitDims)
    requires
        log_has_keys(view, dims),
        view.left.top <= last_start(view.laid(dims).count(), pane_rows(dims)),
    ensures
        ({
            let (after, act) = view.key_done(key, dims);
            let count = view.laid(dims).count();
            let last = last_start(count, pane_rows(dims));
            let top = view.left.top as int;
            &&& with_control(key, 'e') ==> act == Act::Continue && after.left.top == row_below(
                top,
                1,
                (last + 1) as nat,
            )
            &&& with_control(key, 'y') ==> act == Act::Continue && after.left.top == row_above(
                top,
                1,
            )
            &&& key.code == KeyCode::Char('F') ==> after.left.follow && after.left.top == last
                && after.cursor.row == count - 1
            &&& with_control(key, 'c') ==> !after.left.follow && after.left.top == top
                && after.cursor == view.cursor
            &&& pressed(key, 'v') ==> after.selection is Some && after.selection->0.selection.mode
                == SelectionMode::Character
            &&& key.code == KeyCode::Char('V') ==> after.selection is Some
                && after.selection->0.selection.mode == SelectionMode::Line
            &&& pressed(key, 'v') || key.code == KeyCode::Char('V') ==> {
                &&& after.selection->0.pane == Focus::Left
                &&& after.selection->0.selection.anchor == after.cursor
                &&& after.selection->0.selection.cursor == after.cursor
                &&& after.cursor.row == view.cursor.row
                &&& !after.left.follow
            }
            &&& pressed(key, 'p') ==> act == Act::Paste && after == view
            &&& pressed(key, '/') ==> act == Act::Prompt && after == view
            &&& pressed(key, 'r') ==> act == Act::Reload && after == view
            &&& key.code == KeyCode::Char('q') || key.code == KeyCode::Char('Q') || key.code
                == KeyCode::Char('?') ==> act == Act::Continue && after == (Split {
                left: Viewer { status: after.left.status, ..view.left },
                ..view
            })
            &&& key.code == KeyCode::Esc || key.code == KeyCode::Tab || key.code
                == KeyCode::Backspace || key.code == KeyCode::Other ==> act == Act::Continue
                && after == view
        }),
{
    if !with_control(key, 'w') && !with_control(key, 'g') {
        lemma_left_key(view, key, dims);
        lemma_pane_commands(view, left_binding(key), dims);
    }
}

#[verifier::rlimit(60)]
proof fn lemma_pane_commands(view: Split, command: Command, dims: SplitDims)
    requires
        log_has_keys(view, dims),
        view.left.top <= last_start(view.laid(dims).count(), pane_rows(dims)),
    ensures
        ({
            let (after, act) = view.left_done(command, dims);
            let count = view.laid(dims).count();
            let last = last_start(count, pane_rows(dims));
            let top = view.left.top as int;
            &&& command == Command::View { forward: true } ==> act == Act::Continue
                && after.left.top == row_below(top, 1, (last + 1) as nat)
            &&& command == Command::View { forward: false } ==> act == Act::Continue
                && after.left.top == row_above(top, 1)
            &&& command == Command::Follow ==> after.left.follow && after.left.top == last
                && after.cursor.row == count - 1
            &&& command == Command::StopFollow ==> !after.left.follow && after.left.top == top
                && after.cursor == view.cursor
            &&& command matches Command::Select(mode) ==> {
                &&& after.selection is Some
                &&& after.selection->0.selection.mode == mode
                &&& after.selection->0.pane == Focus::Left
                &&& after.selection->0.selection.anchor == after.cursor
                &&& after.selection->0.selection.cursor == after.cursor
                &&& after.cursor.row == view.cursor.row
                &&& !after.left.follow
            }
            &&& command == Command::Paste ==> act == Act::Paste && after == view
            &&& command == Command::Search ==> act == Act::Prompt && after == view
            &&& command == Command::Reload ==> act == Act::Reload && after == view
            &&& command == Command::QuitHint || command == Command::Help ==> act == Act::Continue
                && after == (Split {
                left: Viewer { status: after.left.status, ..view.left },
                ..view
            })
            &&& command == Command::Ignore ==> act == Act::Continue && after == view
        }),
{
    reveal(Split::left_done);
    a_log_has_rows(view.left, dims.left_cols as nat);
    let s = view.unfollowed().laid(dims);
    match command {
        Command::View { forward } => {
            assert(s.left == Viewer { follow: false, ..view.laid(dims).left }) by {
                reveal(Viewer::ensured);
            }
            assert(view.laid(dims).left.top == view.left.top) by {
                reveal(Viewer::ensured);
            }
        },
        Command::Follow => {
            reveal(Viewer::ensured);
        },
        Command::Select(mode) => {
            assert(s.left == Viewer { follow: false, ..view.laid(dims).left }) by {
                reveal(Viewer::ensured);
            }
        },
        _ => {},
    }
}

} // verus!
