//! What the keys do to a selection in the split view, and behind the prefix for actions.

use crate::bindings::{
    half_page, means_down, means_end, means_half_down, means_half_up, means_page_down,
    means_page_up, means_start, means_up, pane_rows,
};
use crate::commands::{selection_binding, Command, ScreenPosition};
use crate::keys::{pressed, with_control, Key, KeyCode};
use crate::pager::{row_above, row_below};
use crate::selection::{
    column_before, column_behind, first_column, last_column, selected_text, word_target, Selection,
    SelectionMode, SelectionPoint, WordMotion,
};
use crate::split_model::{signed, Act, ActiveSelection, Focus, Split, SplitDims};
use crate::viewer::{a_log_has_rows, half_height, height, Viewer};
use vstd::prelude::*;

verus! {

/// A split view with a selection that takes in keys.
pub open spec fn selection_has_keys(view: Split, dims: SplitDims) -> bool {
    &&& view.wf()
    &&& view.selection is Some
    &&& !view.prefix_pending
    &&& !view.switch_prefix_pending
    &&& pane_size(view, dims) <= usize::MAX
    &&& view.selection->0.selection.cursor.row < pane_size(view, dims)
}

/// The number of rows in the pane of the selection.
pub open spec fn pane_size(view: Split, dims: SplitDims) -> nat {
    match view.selection->0.pane {
        Focus::Left => view.laid(dims).count(),
        Focus::Right => view.right.screen.rows,
    }
}

/// A row in the pane of the selection.
pub open spec fn pane_cells(view: Split, dims: SplitDims, row: int) -> Seq<crate::cell::Cell> {
    match view.selection->0.pane {
        Focus::Left => view.laid(dims).left.row_cells(row),
        Focus::Right => view.right.screen.lines[row],
    }
}

/// The rows in the pane of the selection.
pub open spec fn pane_table(view: Split, dims: SplitDims) -> Map<int, Seq<crate::cell::Cell>> {
    Map::new(
        |i: int| 0 <= i < pane_size(view, dims),
        |i: int| pane_cells(view, dims, i),
    )
}

/// Whether the free end of a selection has gone to a place, and all else of it has stayed.
/// On the left the cursor goes with it.
pub open spec fn free_end_is_at(after: Split, view: Split, to: SelectionPoint) -> bool {
    let before = view.selection->0;
    &&& after.selection == Some(
        ActiveSelection {
            pane: before.pane,
            selection: Selection {
                mode: before.selection.mode,
                anchor: before.selection.anchor,
                cursor: to,
            },
        },
    )
    &&& before.pane == Focus::Left ==> after.cursor == to
    &&& before.pane == Focus::Right ==> after.cursor == view.cursor && after.left == view.left
    &&& after.right == view.right
    &&& after.focus == view.focus
}

/// Whether the free end of a selection has gone to a row, which is in view on the left.
pub open spec fn free_end_is_in_row(after: Split, view: Split, dims: SplitDims, row: int) -> bool {
    &&& free_end_is_at(after, view, after.selection->0.selection.cursor)
    &&& after.selection->0.selection.cursor.row == row
    &&& view.selection->0.pane == Focus::Left ==> after.left.top <= row < after.left.top
        + pane_rows(dims)
}

proof fn lemma_selection_key(view: Split, key: Key, dims: SplitDims)
    requires
        selection_has_keys(view, dims),
        !with_control(key, 'w'),
        !with_control(key, 'g'),
    ensures
        view.key_done(key, dims) == view.selection_done(
            view.selection->0,
            selection_binding(key),
            dims,
        ),
{
}

proof fn lemma_pane(view: Split, dims: SplitDims)
    requires
        selection_has_keys(view, dims),
    ensures
        ({
            let pane = view.selection->0.pane;
            let s = view.pane_laid(pane, dims);
            &&& s.pane_count(pane) == pane_size(view, dims)
            &&& pane_size(view, dims) > 0
            &&& forall|row: int|
                0 <= row < pane_size(view, dims) ==> #[trigger] s.pane_row(pane, row)
                    == pane_cells(view, dims, row)
            &&& s.pane_table(pane) == pane_table(view, dims)
            &&& s.left.top == view.left.top
            &&& pane == Focus::Right ==> s == view
            &&& s == (Split { left: s.left, ..view })
        }),
{
    a_log_has_rows(view.left, dims.left_cols as nat);
    reveal(Viewer::ensured);
    let pane = view.selection->0.pane;
    let s = view.pane_laid(pane, dims);
    assert(s.pane_table(pane) =~= pane_table(view, dims));
}

proof fn lemma_rows(view: Split, amount: int, dims: SplitDims)
    requires
        selection_has_keys(view, dims),
    ensures
        ({
            let count = pane_size(view, dims);
            let row = view.selection->0.selection.cursor.row;
            let after = view.selection_row_moved(view.selection->0, amount, dims);
            free_end_is_in_row(
                after,
                view,
                dims,
                if row + amount < 0 {
                    0
                } else if row + amount < count {
                    row + amount
                } else {
                    count - 1
                },
            )
        }),
{
    lemma_pane(view, dims);
}

/// Whether a command moves by so many rows.
spec fn moves_by(command: Command, amount: int, dims: SplitDims) -> bool {
    let rows = pane_rows(dims);
    ||| command == Command::Row { forward: true } && amount == 1
    ||| command == Command::Row { forward: false } && amount == -1
    ||| command == Command::Page { forward: true } && amount == rows
    ||| command == Command::Page { forward: false } && amount == -rows
    ||| command == Command::HalfPage { forward: true } && amount == half_page(rows)
    ||| command == Command::HalfPage { forward: false } && amount == -half_page(rows)
}

#[verifier::rlimit(60)]
proof fn lemma_row_commands(
    view: Split,
    active: ActiveSelection,
    command: Command,
    amount: int,
    dims: SplitDims,
)
    requires
        moves_by(command, amount, dims),
    ensures
        view.selection_done(active, command, dims) == (
            view.selection_row_moved(active, amount, dims),
            Act::Continue,
        ),
{
    assert(height(dims.rows as nat) == pane_rows(dims));
    assert(half_height(dims.rows as nat) == half_page(pane_rows(dims)));
    match command {
        Command::Row { forward } => {
            assert(signed(forward, 1) == amount);
            reveal(Split::selection_done);
        },
        Command::Page { forward } => {
            assert(signed(forward, height(dims.rows as nat)) == amount);
            reveal(Split::selection_done);
        },
        Command::HalfPage { forward } => {
            assert(signed(forward, half_height(dims.rows as nat)) == amount);
            reveal(Split::selection_done);
        },
        _ => {},
    }
}

proof fn lemma_row_key(view: Split, key: Key, amount: int, dims: SplitDims)
    requires
        selection_has_keys(view, dims),
        moves_by(selection_binding(key), amount, dims),
        !with_control(key, 'w'),
        !with_control(key, 'g'),
    ensures
        ({
            let row = view.selection->0.selection.cursor.row as int;
            let (after, act) = view.key_done(key, dims);
            &&& act == Act::Continue
            &&& free_end_is_in_row(
                after,
                view,
                dims,
                if amount >= 0 {
                    row_below(row, amount, pane_size(view, dims))
                } else {
                    row_above(row, -amount)
                },
            )
        }),
{
    lemma_selection_key(view, key, dims);
    lemma_row_commands(view, view.selection->0, selection_binding(key), amount, dims);
    lemma_rows(view, amount, dims);
}

/// The keys for rows, pages and half pages move the free end of a selection by that many
/// rows, as far as the pane has rows.
pub proof fn keys_move_the_selection_by_rows(view: Split, key: Key, dims: SplitDims)
    requires
        selection_has_keys(view, dims),
    ensures
        ({
            let row = view.selection->0.selection.cursor.row as int;
            let count = pane_size(view, dims);
            let rows = pane_rows(dims);
            let (after, act) = view.key_done(key, dims);
            &&& means_down(key) ==> act == Act::Continue && free_end_is_in_row(
                after,
                view,
                dims,
                row_below(row, 1, count),
            )
            &&& means_up(key) ==> act == Act::Continue && free_end_is_in_row(
                after,
                view,
                dims,
                row_above(row, 1),
            )
            &&& means_page_down(key) ==> act == Act::Continue && free_end_is_in_row(
                after,
                view,
                dims,
                row_below(row, rows, count),
            )
            &&& means_page_up(key) ==> act == Act::Continue && free_end_is_in_row(
                after,
                view,
                dims,
                row_above(row, rows),
            )
            &&& means_half_down(key) ==> act == Act::Continue && free_end_is_in_row(
                after,
                view,
                dims,
                row_below(row, half_page(rows), count),
            )
            &&& means_half_up(key) ==> act == Act::Continue && free_end_is_in_row(
                after,
                view,
                dims,
                row_above(row, half_page(rows)),
            )
        }),
{
    let rows = pane_rows(dims);
    if means_down(key) {
        lemma_row_key(view, key, 1, dims);
    } else if means_up(key) {
        lemma_row_key(view, key, -1, dims);
    } else if means_page_down(key) {
        lemma_row_key(view, key, rows, dims);
    } else if means_page_up(key) {
        lemma_row_key(view, key, -rows, dims);
    } else if means_half_down(key) {
        lemma_row_key(view, key, half_page(rows), dims);
    } else if means_half_up(key) {
        lemma_row_key(view, key, -half_page(rows), dims);
    }
}

/// What the other commands do to a selection.
spec fn command_is_done(view: Split, command: Command, dims: SplitDims) -> bool {
    let before = view.selection->0.selection;
    let count = pane_size(view, dims);
    let cells = pane_cells(view, dims, before.cursor.row as int);
    let col = before.cursor.col as int;
    let at = |to: int| SelectionPoint { row: before.cursor.row, col: to as usize };
    let (after, act) = view.selection_done(view.selection->0, command, dims);
    match command {
        Command::Column { forward } => act == Act::Continue && free_end_is_at(
            after,
            view,
            at(
                if forward {
                    column_behind(cells, col)
                } else {
                    column_before(cells, col)
                },
            ),
        ),
        Command::LineEdge { to_end } => act == Act::Continue && free_end_is_at(
            after,
            view,
            at(
                if to_end {
                    last_column(cells)
                } else {
                    0
                },
            ),
        ),
        Command::Word(motion) => act == Act::Continue && free_end_is_at(
            after,
            view,
            word_target(pane_table(view, dims), count as int, before.cursor, motion),
        ),
        Command::FileEdge { to_end } => act == Act::Continue && free_end_is_in_row(
            after,
            view,
            dims,
            if to_end {
                count - 1
            } else {
                0
            },
        ),
        Command::Copy => act == Act::Copy(selected_text(before, pane_table(view, dims)))
            && after.selection == view.selection && after.right == view.right,
        Command::Cancel => act == Act::Continue && after.selection is None && after.right
            == view.right && after.cursor == view.cursor && after.left.top == view.left.top,
        Command::Ignore => act == Act::Continue && after == view,
        _ => true,
    }
}

#[verifier::rlimit(80)]
proof fn lemma_commands(view: Split, command: Command, dims: SplitDims)
    requires
        selection_has_keys(view, dims),
    ensures
        command_is_done(view, command, dims),
{
    lemma_pane(view, dims);
    match command {
        Command::Column { forward } => {
            reveal(Split::selection_done);
        },
        Command::LineEdge { to_end } => {
            reveal(Split::selection_done);
        },
        Command::Word(motion) => {
            reveal(Split::selection_done);
        },
        Command::FileEdge { to_end } => {
            reveal(Split::selection_done);
        },
        Command::Copy => {
            reveal(Split::selection_done);
        },
        Command::Cancel => {
            reveal(Split::selection_done);
        },
        Command::Ignore => {
            reveal(Split::selection_done);
        },
        _ => {},
    }
}

/// The keys for columns, words and edges move the free end of a selection there; the copy
/// keys hand out the selected text, escape gives the selection up, and keys without a
/// meaning change nothing.
pub proof fn keys_of_a_selection(view: Split, key: Key, dims: SplitDims)
    requires
        selection_has_keys(view, dims),
    ensures
        ({
            let before = view.selection->0.selection;
            let count = pane_size(view, dims);
            let cells = pane_cells(view, dims, before.cursor.row as int);
            let col = before.cursor.col as int;
            let (after, act) = view.key_done(key, dims);
            let at = |to: int| SelectionPoint { row: before.cursor.row, col: to as usize };
            let word = |motion: WordMotion|
                word_target(pane_table(view, dims), count as int, before.cursor, motion);
            &&& pressed(key, 'h') || key.code == KeyCode::Left ==> free_end_is_at(
                after,
                view,
                at(column_before(cells, col)),
            )
            &&& pressed(key, 'l') || key.code == KeyCode::Right ==> free_end_is_at(
                after,
                view,
                at(column_behind(cells, col)),
            )
            &&& pressed(key, '0') ==> free_end_is_at(after, view, at(0))
            &&& key.code == KeyCode::Char('$') ==> free_end_is_at(
                after,
                view,
                at(last_column(cells)),
            )
            &&& pressed(key, 'w') ==> free_end_is_at(after, view, word(WordMotion::ForwardStart))
            &&& pressed(key, 'e') ==> free_end_is_at(after, view, word(WordMotion::ForwardEnd))
            &&& pressed(key, 'b') ==> free_end_is_at(
                after,
                view,
                word(WordMotion::BackwardStart),
            )
            &&& means_start(key) ==> free_end_is_in_row(after, view, dims, 0)
            &&& means_end(key) ==> free_end_is_in_row(after, view, dims, count - 1)
            &&& pressed(key, 'y') || key.code == KeyCode::Char('Y') ==> {
                &&& act == Act::Copy(selected_text(before, pane_table(view, dims)))
                &&& after.selection == view.selection
            }
            &&& key.code == KeyCode::Esc ==> act == Act::Continue && after.selection is None
                && after.left.top == view.left.top && after.cursor == view.cursor
            &&& key.code == KeyCode::Char('q') || key.code == KeyCode::Char('/') || key.code
                == KeyCode::Enter || key.code == KeyCode::Tab || key.code == KeyCode::Other
                ==> act == Act::Continue && after == view
        }),
{
    if !with_control(key, 'w') && !with_control(key, 'g') {
        lemma_selection_key(view, key, dims);
        lemma_commands(view, selection_binding(key), dims);
    }
}

#[verifier::rlimit(60)]
proof fn lemma_screen(view: Split, position: ScreenPosition, dims: SplitDims)
    requires
        selection_has_keys(view, dims),
        view.selection->0.pane == Focus::Right,
    ensures
        ({
            let count = view.right.screen.rows;
            let (after, act) = view.selection_done(
                view.selection->0,
                Command::Screen(position),
                dims,
            );
            let row = after.selection->0.selection.cursor.row;
            &&& act == Act::Continue
            &&& free_end_is_at(after, view, after.selection->0.selection.cursor)
            &&& match position {
                ScreenPosition::Top => row == 0,
                ScreenPosition::Middle => 0 <= (count - 1 - row) - row <= 1,
                ScreenPosition::Bottom => row == count - 1,
            }
        }),
{
    lemma_pane(view, dims);
    reveal(Split::selection_done);
}

#[verifier::rlimit(60)]
proof fn lemma_right_view(view: Split, forward: bool, dims: SplitDims)
    requires
        selection_has_keys(view, dims),
        view.selection->0.pane == Focus::Right,
    ensures
        view.selection_done(view.selection->0, Command::View { forward }, dims) == (
            view.selection_row_moved(
                view.selection->0,
                if forward {
                    1
                } else {
                    -1
                },
                dims,
            ),
            Act::Continue,
        ),
{
    assert(signed(forward, 1) == (if forward {
        1int
    } else {
        -1
    }));
    reveal(Split::selection_done);
}

/// In the right pane the keys for the screen go to its top, middle and bottom row, and those
/// that scroll the view on the left move the free end by one row.
pub proof fn keys_of_a_selection_on_the_right(view: Split, key: Key, dims: SplitDims)
    requires
        selection_has_keys(view, dims),
        view.selection->0.pane == Focus::Right,
    ensures
        ({
            let count = view.right.screen.rows;
            let from = view.selection->0.selection.cursor.row as int;
            let (after, act) = view.key_done(key, dims);
            let row = after.selection->0.selection.cursor.row;
            let stays = free_end_is_at(after, view, after.selection->0.selection.cursor);
            &&& key.code == KeyCode::Char('H') ==> stays && row == 0
            &&& key.code == KeyCode::Char('M') ==> stays && 0 <= (count - 1 - row) - row <= 1
            &&& key.code == KeyCode::Char('L') ==> stays && row == count - 1
            &&& with_control(key, 'e') ==> stays && row == row_below(from, 1, count)
            &&& with_control(key, 'y') ==> stays && row == row_above(from, 1)
        }),
{
    if key.code == KeyCode::Char('H') {
        lemma_selection_key(view, key, dims);
        lemma_screen(view, ScreenPosition::Top, dims);
    } else if key.code == KeyCode::Char('M') {
        lemma_selection_key(view, key, dims);
        lemma_screen(view, ScreenPosition::Middle, dims);
    } else if key.code == KeyCode::Char('L') {
        lemma_selection_key(view, key, dims);
        lemma_screen(view, ScreenPosition::Bottom, dims);
    } else if with_control(key, 'e') {
        lemma_selection_key(view, key, dims);
        lemma_right_view(view, true, dims);
        lemma_rows(view, 1, dims);
    } else if with_control(key, 'y') {
        lemma_selection_key(view, key, dims);
        lemma_right_view(view, false, dims);
        lemma_rows(view, -1, dims);
    }
}

/// Behind the prefix for actions, `v` and `V` start a selection in the pane with the focus,
/// `p` pastes and `q` quits, in either pane; the prefix is used up by any key.
pub proof fn actions_behind_the_prefix(view: Split, prefix: Key, key: Key, dims: SplitDims)
    requires
        view.wf(),
        !view.prefix_pending,
        !view.switch_prefix_pending,
        with_control(prefix, 'g'),
    ensures
        ({
            let (pending, first) = view.key_done(prefix, dims);
            let (after, act) = pending.key_done(key, dims);
            &&& first == Act::Continue
            &&& pending == (Split { prefix_pending: true, ..view })
            &&& !after.prefix_pending
            &&& after.focus == view.focus
            &&& after.right == view.right
            &&& pressed(key, 'v') ==> act == Act::Continue && after.selection is Some
                && after.selection->0.pane == view.focus && after.selection->0.selection.mode
                == SelectionMode::Character
            &&& key.code == KeyCode::Char('V') ==> act == Act::Continue && after.selection is Some
                && after.selection->0.pane == view.focus && after.selection->0.selection.mode
                == SelectionMode::Line
            &&& pressed(key, 'v') || key.code == KeyCode::Char('V')
                ==> after.selection->0.selection.anchor == after.selection->0.selection.cursor
            &&& key.code == KeyCode::Char('p') || key.code == KeyCode::Char('P') ==> act
                == Act::Paste && after == view
            &&& key.code == KeyCode::Char('q') ==> act == Act::Quit && after == view
            &&& !(key.code is Char) ==> act == Act::Continue && after == view
        }),
{
    let pending = Split { prefix_pending: true, ..view };
    assert(Split { prefix_pending: false, ..pending } == view);
}

/// A selection in the right pane starts in the last row that shows any text.
pub proof fn right_selections_start_in_the_last_text_row(view: Split, dims: SplitDims, row: int)
    requires
        view.wf(),
        view.focus == Focus::Right,
        view.right.screen.rows <= usize::MAX,
        0 <= row < view.right.screen.rows,
        crate::cell::row_text(view.right.screen.lines[row]).len() > 0,
    ensures
        ({
            let lines = view.right.screen.lines;
            let start = view.selecting(SelectionMode::Character, dims).selection->0.selection.anchor;
            &&& row <= start.row < lines.len()
            &&& crate::cell::row_text(lines[start.row as int]).len() > 0
            &&& start.col == first_column(lines[start.row as int]) as usize
        }),
{
    let lines = view.right.screen.lines;
    lemma_last_text_row(lines, lines.len() as int, lines.len() - 1, row);
}

proof fn lemma_last_text_row(
    lines: Seq<Seq<crate::cell::Cell>>,
    to: int,
    default: int,
    row: int,
)
    requires
        0 <= row < to <= lines.len(),
        crate::cell::row_text(lines[row]).len() > 0,
    ensures
        row <= crate::split_model::last_text_row(lines, to, default) < to,
        crate::cell::row_text(
            lines[crate::split_model::last_text_row(lines, to, default)],
        ).len() > 0,
    decreases to,
{
    if crate::cell::row_text(lines[to - 1]).len() == 0 {
        lemma_last_text_row(lines, to - 1, default, row);
    }
}

} // verus!
