//! What control characters, escape sequences and control sequences do to a terminal, as the
//! characters that a program writes.

use crate::cell::{cell_columns, plain_style, Cell, Style};
use crate::screen::{
    cancels_wrap, csi_body, csi_numbers, csi_private, feed_in_parts, palette_entry, param,
    sgr_codes, sgr_from, well_formed_csi, ParseState, Position, Screen,
};
use crate::text::{all_digits, before, decimal, decimal_reads_back, lemma_decimal_digits, split};
use crate::transcript::{lemma_split_behind, lemma_split_plain};
use vstd::prelude::*;

verus! {

/// A control sequence with the given parameters.
pub open spec fn sequence(params: Seq<char>, final_char: char) -> Seq<char> {
    seq!['\x1b', '['] + params + seq![final_char]
}

/// The terminal after a control sequence with one number.
pub open spec fn done(screen: Screen, n: nat, final_char: char) -> Screen {
    screen.feed(sequence(decimal(n), final_char))
}

/// The terminal after a control sequence with two numbers.
pub open spec fn done_with_two(screen: Screen, a: nat, b: nat, final_char: char) -> Screen {
    screen.feed(sequence(decimal(a).push(';') + decimal(b), final_char))
}

/// A terminal that expects ordinary text.
pub open spec fn ready(screen: Screen) -> bool {
    screen.wf() && screen.state == ParseState::Normal
}

/// Whether two terminals are the same but for the cursor and a pending wrap.
pub open spec fn same_but_cursor(a: Screen, b: Screen) -> bool {
    &&& a.rows == b.rows
    &&& a.cols == b.cols
    &&& a.lines == b.lines
    &&& a.history == b.history
    &&& a.style == b.style
    &&& a.saved == b.saved
    &&& a.state == b.state
    &&& a.sync_active == b.sync_active
}

/// Whether two terminals are the same but for what the lines hold and a pending wrap.
pub open spec fn same_but_lines(a: Screen, b: Screen) -> bool {
    &&& a.rows == b.rows
    &&& a.cols == b.cols
    &&& a.lines.len() == b.lines.len()
    &&& a.cursor == b.cursor
    &&& a.style == b.style
    &&& a.saved == b.saved
    &&& a.state == b.state
    &&& a.sync_active == b.sync_active
}

/// A blank in the current style.
pub open spec fn gap(screen: Screen) -> Cell {
    Cell { ch: ' ', style: screen.style, wide_cont: false }
}

// Reading a sequence
// ------------------

proof fn lemma_two_chars(screen: Screen, a: char, b: char)
    ensures
        screen.feed(seq![a, b]) == screen.feed_char(a).feed_char(b),
{
    assert(seq![a, b].drop_last() =~= seq![a]);
    assert(seq![a].drop_last() =~= Seq::<char>::empty());
    assert(screen.feed(Seq::<char>::empty()) == screen);
    assert(screen.feed(seq![a]) == screen.feed_char(a));
}

proof fn lemma_one_char(screen: Screen, ch: char)
    ensures
        screen.feed(seq![ch]) == screen.feed_char(ch),
{
    assert(seq![ch].drop_last() =~= Seq::<char>::empty());
    assert(screen.feed(Seq::<char>::empty()) == screen);
}

proof fn lemma_states(screen: Screen, ch: char)
    ensures
        screen.state == ParseState::Normal ==> screen.feed_char(ch) == screen.feed_normal(ch),
        screen.state == ParseState::Esc ==> screen.feed_char(ch) == screen.feed_esc(ch),
        screen.state == ParseState::Csi ==> screen.feed_char(ch) == screen.feed_csi(ch),
        screen.state == ParseState::Osc ==> screen.feed_char(ch) == screen.feed_osc(ch),
        screen.state == ParseState::Charset ==> screen.feed_char(ch) == screen.with_state(
            ParseState::Normal,
        ),
{
    reveal(Screen::feed_char);
}

proof fn lemma_normal(screen: Screen, ch: char)
    requires
        screen.state == ParseState::Normal,
    ensures
        screen.feed(seq![ch]) == screen.feed_normal(ch),
{
    lemma_one_char(screen, ch);
    lemma_states(screen, ch);
}

proof fn lemma_escape(screen: Screen, ch: char)
    requires
        screen.state == ParseState::Normal,
    ensures
        screen.feed(seq!['\x1b', ch]) == screen.with_state(ParseState::Esc).feed_esc(ch),
{
    lemma_two_chars(screen, '\x1b', ch);
    lemma_states(screen, '\x1b');
    lemma_states(screen.with_state(ParseState::Esc), ch);
}

proof fn lemma_params(screen: Screen, params: Seq<char>)
    requires
        screen.state == ParseState::Csi,
        forall|i: int| 0 <= i < params.len() ==> ' ' <= #[trigger] params[i] <= '?',
    ensures
        screen.feed(params) == (Screen { csi: screen.csi + params, ..screen }),
    decreases params.len(),
{
    if params.len() == 0 {
        assert(screen.csi + params =~= screen.csi);
    } else {
        let before = params.drop_last();
        assert forall|i: int| 0 <= i < before.len() implies ' ' <= #[trigger] before[i] <= '?' by {
            assert(before[i] == params[i]);
        }
        lemma_params(screen, before);
        assert(' ' <= params[params.len() - 1] <= '?');
        lemma_states(screen.feed(before), params.last());
        assert((screen.csi + before).push(params.last()) =~= screen.csi + params);
    }
}

proof fn lemma_sequence(screen: Screen, params: Seq<char>, final_char: char)
    requires
        screen.state == ParseState::Normal,
        forall|i: int| 0 <= i < params.len() ==> ' ' <= #[trigger] params[i] <= '?',
        '@' <= final_char <= '~',
    ensures
        screen.feed(sequence(params, final_char)) == (Screen {
            csi: Seq::empty(),
            ..screen
        }).handle_csi(params.push(final_char)),
{
    let start = seq!['\x1b', '['];
    let opened = screen.feed(start);
    lemma_escape(screen, '[');
    assert(opened == (Screen { csi: Seq::empty(), state: ParseState::Csi, ..screen }));
    feed_in_parts(screen, start + params, seq![final_char]);
    feed_in_parts(screen, start, params);
    lemma_params(opened, params);
    assert(Seq::<char>::empty() + params =~= params);
    let read = opened.feed(params);
    lemma_one_char(read, final_char);
    lemma_states(read, final_char);
    assert((Screen { csi: Seq::empty(), state: ParseState::Normal, ..read }) == (Screen {
        csi: Seq::empty(),
        ..screen
    }));
}

proof fn lemma_before(text: Seq<char>, sep: char)
    requires
        forall|i: int| 0 <= i < text.len() ==> #[trigger] text[i] != sep,
    ensures
        before(text, sep) == text,
    decreases text.len(),
{
    if text.len() > 0 {
        let rest = text.skip(1);
        assert forall|i: int| 0 <= i < rest.len() implies #[trigger] rest[i] != sep by {
            assert(rest[i] == text[i + 1]);
        }
        lemma_before(rest, sep);
        assert(seq![text[0]] + rest =~= text);
    }
}

proof fn lemma_digits(n: nat)
    ensures
        decimal(n).len() > 0,
        forall|i: int| 0 <= i < decimal(n).len() ==> '0' <= #[trigger] decimal(n)[i] <= '9',
        before(decimal(n), ':') == decimal(n),
        split(decimal(n), ';') == seq![decimal(n)],
{
    lemma_decimal_digits(n);
    assert(all_digits(decimal(n)));
    lemma_before(decimal(n), ':');
    lemma_split_plain(decimal(n), ';');
}

proof fn lemma_number(n: nat)
    requires
        n <= usize::MAX,
    ensures
        csi_numbers(decimal(n)) == seq![Some(n)],
{
    lemma_digits(n);
    decimal_reads_back(n, usize::MAX as nat);
    assert(csi_numbers(decimal(n)) =~= seq![Some(n)]);
}

proof fn lemma_numbers(a: nat, b: nat)
    requires
        a <= usize::MAX,
        b <= usize::MAX,
    ensures
        csi_numbers(decimal(a).push(';') + decimal(b)) == seq![Some(a), Some(b)],
{
    lemma_digits(a);
    lemma_digits(b);
    lemma_split_behind(decimal(a), ';', decimal(b));
    decimal_reads_back(a, usize::MAX as nat);
    decimal_reads_back(b, usize::MAX as nat);
    assert(csi_numbers(decimal(a).push(';') + decimal(b)) =~= seq![Some(a), Some(b)]);
}

proof fn lemma_plain_body(body: Seq<char>, final_char: char)
    requires
        body.len() > 0 ==> '0' <= body[0] <= '9',
        forall|i: int| 0 <= i < body.len() ==> ' ' <= #[trigger] body[i] <= '?',
        '@' <= final_char <= '~',
    ensures
        well_formed_csi(body.push(final_char)),
        csi_private(body.push(final_char)) is None,
        csi_body(body.push(final_char)) == body,
{
    let seq = body.push(final_char);
    assert(seq.drop_last() =~= body);
    assert forall|i: int| 0 <= i < seq.len() - 1 implies ' ' <= #[trigger] seq[i] <= '?' by {
        assert(seq[i] == body[i]);
    }
}

proof fn lemma_done_with(screen: Screen, body: Seq<char>, final_char: char)
    requires
        screen.state == ParseState::Normal,
        body.len() > 0 ==> '0' <= body[0] <= '9',
        forall|i: int| 0 <= i < body.len() ==> ' ' <= #[trigger] body[i] <= '?',
        '@' <= final_char <= '~',
    ensures
        screen.feed(sequence(body, final_char)) == (Screen {
            csi: Seq::empty(),
            wrap_pending: screen.wrap_pending && !cancels_wrap(final_char),
            ..screen
        }).control(final_char, None, body),
{
    lemma_sequence(screen, body, final_char);
    lemma_plain_body(body, final_char);
    let s = Screen { csi: Seq::empty(), ..screen };
    assert(s.cancel_wrap() == (Screen { wrap_pending: false, ..s }));
}

proof fn lemma_done(screen: Screen, n: nat, final_char: char)
    requires
        screen.state == ParseState::Normal,
        n <= usize::MAX,
        '@' <= final_char <= '~',
    ensures
        done(screen, n, final_char) == (Screen {
            csi: Seq::empty(),
            wrap_pending: screen.wrap_pending && !cancels_wrap(final_char),
            ..screen
        }).control(final_char, None, decimal(n)),
        csi_numbers(decimal(n)) == seq![Some(n)],
{
    lemma_digits(n);
    lemma_number(n);
    lemma_done_with(screen, decimal(n), final_char);
}

// The cursor
// ----------

/// The control functions for the cursor move it by the given number of rows or columns, or
/// to the given place, and never off the screen. They change nothing else.
pub proof fn cursor_functions_move_the_cursor(screen: Screen, n: nat)
    requires
        ready(screen),
        1 <= n <= usize::MAX,
    ensures
        ({
            let row = screen.cursor.row;
            let col = screen.cursor.col;
            let last_row = (screen.rows - 1) as nat;
            let last_col = (screen.cols - 1) as nat;
            let up = done(screen, n, 'A');
            let down = done(screen, n, 'B');
            let right = done(screen, n, 'C');
            let left = done(screen, n, 'D');
            let below = done(screen, n, 'E');
            let above = done(screen, n, 'F');
            let column = done(screen, n, 'G');
            &&& same_but_cursor(up, screen) && !up.wrap_pending && up.cursor.col == col
            &&& if n <= row {
                up.cursor.row + n == row
            } else {
                up.cursor.row == 0
            }
            &&& same_but_cursor(down, screen) && !down.wrap_pending && down.cursor.col == col
            &&& if row + n <= last_row {
                down.cursor.row == row + n
            } else {
                down.cursor.row == last_row
            }
            &&& same_but_cursor(right, screen) && !right.wrap_pending && right.cursor.row == row
            &&& if col + n <= last_col {
                right.cursor.col == col + n
            } else {
                right.cursor.col == last_col
            }
            &&& same_but_cursor(left, screen) && !left.wrap_pending && left.cursor.row == row
            &&& if n <= col {
                left.cursor.col + n == col
            } else {
                left.cursor.col == 0
            }
            &&& same_but_cursor(below, screen) && !below.wrap_pending
            &&& below.cursor == (Position { row: down.cursor.row, col: 0 })
            &&& same_but_cursor(above, screen) && !above.wrap_pending
            &&& above.cursor == (Position { row: up.cursor.row, col: 0 })
            &&& same_but_cursor(column, screen) && !column.wrap_pending
            &&& column.cursor.row == row
            &&& if n <= screen.cols {
                column.cursor.col + 1 == n
            } else {
                column.cursor.col == last_col
            }
        }),
{
    lemma_done(screen, n, 'A');
    lemma_done(screen, n, 'B');
    lemma_done(screen, n, 'C');
    lemma_done(screen, n, 'D');
    lemma_done(screen, n, 'E');
    lemma_done(screen, n, 'F');
    lemma_done(screen, n, 'G');
}

/// A place is given by its row and its column, counted from one.
pub proof fn the_cursor_goes_to_a_place(screen: Screen, row: nat, col: nat)
    requires
        ready(screen),
        1 <= row <= usize::MAX,
        1 <= col <= usize::MAX,
    ensures
        ({
            let there = done_with_two(screen, row, col, 'H');
            &&& same_but_cursor(there, screen)
            &&& !there.wrap_pending
            &&& there.cursor.row + 1 == (if row <= screen.rows {
                row
            } else {
                screen.rows
            })
            &&& there.cursor.col + 1 == (if col <= screen.cols {
                col
            } else {
                screen.cols
            })
            &&& done_with_two(screen, row, col, 'f') == there
            &&& done(screen, row, 'H').cursor == (Position { row: there.cursor.row, col: 0 })
        }),
{
    let body = decimal(row).push(';') + decimal(col);
    lemma_digits(row);
    lemma_digits(col);
    lemma_numbers(row, col);
    assert forall|i: int| 0 <= i < body.len() implies ' ' <= #[trigger] body[i] <= '?' by {
        if i < decimal(row).len() {
            assert(body[i] == decimal(row)[i]);
        } else if i > decimal(row).len() {
            assert(body[i] == decimal(col)[i - decimal(row).len() - 1]);
        }
    }
    assert(body[0] == decimal(row)[0]);
    lemma_done_with(screen, body, 'H');
    lemma_done_with(screen, body, 'f');
    lemma_done(screen, row, 'H');
}

/// A number that is missing, or zero, stands for one.
pub proof fn a_missing_number_is_one(screen: Screen, final_char: char)
    requires
        ready(screen),
        'A' <= final_char <= 'H' || final_char == 'L' || final_char == 'M' || final_char == '@'
            || final_char == 'P' || final_char == 'X' || final_char == 'S' || final_char == 'T'
            || final_char == 'f',
    ensures
        screen.feed(sequence(Seq::empty(), final_char)) == done(screen, 1, final_char),
        done(screen, 0, final_char) == done(screen, 1, final_char),
{
    lemma_done(screen, 1, final_char);
    lemma_done(screen, 0, final_char);
    lemma_done_with(screen, Seq::empty(), final_char);
    let none = csi_numbers(Seq::<char>::empty());
    assert(none =~= seq![None]) by {
        assert(before(Seq::<char>::empty(), ':') =~= Seq::<char>::empty());
        assert(split(Seq::<char>::empty(), ';') =~= seq![Seq::<char>::empty()]);
    }
    assert(param(none, 0, 1) == 1 && param(none, 1, 1) == 1);
    let one = csi_numbers(decimal(1));
    let zero = csi_numbers(decimal(0));
    assert(param(one, 0, 1) == 1 && param(one, 1, 1) == 1);
    assert(param(zero, 0, 1) == 1 && param(zero, 1, 1) == 1);
}

/// What is saved is restored: after the cursor has been saved, whatever moves it, it comes
/// back to its place. Both pairs of functions share the place.
pub proof fn the_saved_cursor_comes_back(screen: Screen, moved: Screen)
    requires
        ready(screen),
        ready(moved),
        moved.saved == screen.cursor,
    ensures
        screen.feed(seq!['\x1b', '7']).saved == screen.cursor,
        screen.feed(sequence(Seq::empty(), 's')).saved == screen.cursor,
        same_but_lines(screen.feed(seq!['\x1b', '7']), Screen {
            saved: screen.cursor,
            ..screen
        }),
        moved.feed(seq!['\x1b', '8']).cursor == screen.cursor,
        moved.feed(sequence(Seq::empty(), 'u')).cursor == screen.cursor,
        same_but_cursor(moved.feed(seq!['\x1b', '8']), moved),
        same_but_cursor(moved.feed(sequence(Seq::empty(), 'u')), moved),
{
    lemma_escape(screen, '7');
    lemma_escape(moved, '8');
    lemma_done_with(screen, Seq::empty(), 's');
    lemma_done_with(moved, Seq::empty(), 'u');
}

/// A carriage return goes to the first column, a backspace one column to the left, a line
/// feed one row down; none of them changes anything else while there is a next row.
pub proof fn control_characters_move_the_cursor(screen: Screen)
    requires
        ready(screen),
    ensures
        ({
            let returned = screen.feed(seq!['\r']);
            let back = screen.feed(seq!['\x08']);
            let fed = screen.feed(seq!['\n']);
            let index = screen.feed(seq!['\x1b', 'D']);
            let next = screen.feed(seq!['\x1b', 'E']);
            let reverse = screen.feed(seq!['\x1b', 'M']);
            let row = screen.cursor.row;
            let col = screen.cursor.col;
            &&& same_but_cursor(returned, screen) && !returned.wrap_pending
            &&& returned.cursor == (Position { row, col: 0 })
            &&& same_but_cursor(back, screen) && !back.wrap_pending
            &&& back.cursor.row == row
            &&& col > 0 ==> back.cursor.col + 1 == col
            &&& col == 0 ==> back.cursor.col == 0
            &&& row + 1 < screen.rows ==> {
                &&& same_but_cursor(fed, screen) && !fed.wrap_pending
                &&& fed.cursor == (Position { row: row + 1, col })
                &&& same_but_cursor(index, screen)
                &&& index.cursor == (Position { row: row + 1, col })
                &&& same_but_cursor(next, screen)
                &&& next.cursor == (Position { row: row + 1, col: 0 })
            }
            &&& row > 0 ==> {
                &&& same_but_cursor(reverse, screen)
                &&& reverse.cursor.row + 1 == row
                &&& reverse.cursor.col == col
            }
        }),
{
    lemma_normal(screen, '\r');
    lemma_normal(screen, '\x08');
    lemma_normal(screen, '\n');
    lemma_escape(screen, 'D');
    lemma_escape(screen, 'E');
    lemma_escape(screen, 'M');
}

/// A tab goes forward to the nearest multiple of eight, or to the last column where there
/// is none before it; in the last column it stays. Nothing else changes.
pub proof fn tabs_go_forward(screen: Screen)
    requires
        screen.wf(),
        screen.state == ParseState::Normal,
    ensures
        ({
            let col = screen.cursor.col;
            let after = screen.feed(seq!['\t']);
            let to = after.cursor.col;
            &&& col + 1 < screen.cols ==> col < to
            &&& col + 1 == screen.cols ==> to == col
            &&& to < screen.cols
            &&& to % 8 == 0 || to + 1 == screen.cols
            &&& forall|between: nat| col < between < to ==> #[trigger] (between % 8) != 0
            &&& after.cursor.row == screen.cursor.row
            &&& after.lines == screen.lines
            &&& after.history == screen.history
            &&& after.style == screen.style
            &&& after.state == screen.state
            &&& !after.wrap_pending
        }),
{
    lemma_normal(screen, '\t');
    lemma_tab(screen.cancel_wrap());
}

proof fn lemma_tab(screen: Screen)
    requires
        screen.wf(),
    ensures
        ({
            let col = screen.cursor.col;
            let to = screen.tab().cursor.col;
            &&& col + 1 < screen.cols ==> col < to
            &&& col + 1 == screen.cols ==> to == col
            &&& to < screen.cols
            &&& to % 8 == 0 || to + 1 == screen.cols
            &&& forall|between: nat| col < between < to ==> #[trigger] (between % 8) != 0
        }),
{
    let col = screen.cursor.col;
    let to = screen.tab().cursor.col;
    assert forall|between: nat| col < between < to implies #[trigger] (between % 8) != 0 by {
        assert(between < (col / 8 + 1) * 8);
    }
}

/// Other control characters are ignored.
pub proof fn other_control_characters_are_ignored(screen: Screen, ch: char)
    requires
        ready(screen),
        (ch as u32) < 32 || ch as u32 == 127,
        ch != '\x1b' && ch != '\r' && ch != '\n' && ch != '\x08' && ch != '\t',
    ensures
        screen.feed(seq![ch]) == screen,
{
    lemma_normal(screen, ch);
}

/// The designation of a character set is ignored.
pub proof fn character_sets_are_ignored(screen: Screen, set: char)
    requires
        ready(screen),
    ensures
        screen.feed(seq!['\x1b', '('] + seq![set]) == screen,
{
    lemma_escape(screen, '(');
    feed_in_parts(screen, seq!['\x1b', '('], seq![set]);
    let designating = screen.feed(seq!['\x1b', '(']);
    assert(designating == screen.with_state(ParseState::Charset));
    lemma_one_char(designating, set);
    lemma_states(designating, set);
}

/// Operating system commands are ignored up to their end.
pub proof fn commands_to_the_system_are_ignored(screen: Screen, text: Seq<char>)
    requires
        ready(screen),
        forall|i: int|
            0 <= i < text.len() ==> #[trigger] text[i] != '\x07' && text[i] != '\x1b',
    ensures
        ({
            let after = screen.feed(seq!['\x1b', ']'] + text + seq!['\x07']);
            same_but_cursor(after, screen) && after.cursor == screen.cursor && after.wrap_pending
                == screen.wrap_pending
        }),
        ({
            let after = screen.feed(seq!['\x1b', ']'] + text + seq!['\x1b', '\\']);
            same_but_cursor(after, screen) && after.cursor == screen.cursor && after.wrap_pending
                == screen.wrap_pending
        }),
{
    let start = seq!['\x1b', ']'];
    let opened = screen.feed(start);
    lemma_escape(screen, ']');
    assert(opened == (Screen {
        osc: Seq::empty(),
        osc_escape: false,
        state: ParseState::Osc,
        ..screen
    }));
    feed_in_parts(screen, start, text);
    lemma_osc(opened, text);
    let read = opened.feed(text);
    lemma_osc_ends(read);
    feed_in_parts(screen, start + text, seq!['\x07']);
    feed_in_parts(screen, start + text, seq!['\x1b', '\\']);
}

proof fn lemma_osc_ends(screen: Screen)
    requires
        screen.state == ParseState::Osc,
        !screen.osc_escape,
    ensures
        screen.feed(seq!['\x07']) == screen.with_state(ParseState::Normal),
        screen.feed(seq!['\x1b', '\\']) == screen.with_state(ParseState::Normal),
{
    lemma_one_char(screen, '\x07');
    lemma_states(screen, '\x07');
    lemma_two_chars(screen, '\x1b', '\\');
    lemma_states(screen, '\x1b');
    lemma_states(screen.feed_char('\x1b'), '\\');
}

proof fn lemma_osc(screen: Screen, text: Seq<char>)
    requires
        screen.state == ParseState::Osc,
        !screen.osc_escape,
        forall|i: int|
            0 <= i < text.len() ==> #[trigger] text[i] != '\x07' && text[i] != '\x1b',
    ensures
        screen.feed(text) == (Screen { osc: screen.osc + text, ..screen }),
    decreases text.len(),
{
    if text.len() == 0 {
        assert(screen.osc + text =~= screen.osc);
    } else {
        let before = text.drop_last();
        assert forall|i: int| 0 <= i < before.len() implies #[trigger] before[i] != '\x07'
            && before[i] != '\x1b' by {
            assert(before[i] == text[i]);
        }
        lemma_osc(screen, before);
        assert(text[text.len() - 1] != '\x07');
        lemma_states(screen.feed(before), text.last());
        assert((screen.osc + before).push(text.last()) =~= screen.osc + text);
    }
}

// Cells and rows
// --------------

/// Erasing in the line blanks the cells behind the cursor, those up to it, or all of them,
/// in each case with the cell under the cursor; all other cells stay.
pub proof fn erasing_in_the_line_blanks_cells(screen: Screen, row: int, col: int)
    requires
        ready(screen),
        0 <= row < screen.rows,
        0 <= col < screen.cols,
    ensures
        ({
            let cell = screen.lines[row][col];
            let here = row == screen.cursor.row;
            let at = screen.cursor.col;
            let behind = done(screen, 0, 'K');
            let before = done(screen, 1, 'K');
            let all = done(screen, 2, 'K');
            &&& behind.lines[row][col] == (if here && col >= at {
                gap(screen)
            } else {
                cell
            })
            &&& before.lines[row][col] == (if here && col <= at {
                gap(screen)
            } else {
                cell
            })
            &&& all.lines[row][col] == (if here {
                gap(screen)
            } else {
                cell
            })
            &&& same_but_lines(behind, screen) && behind.history == screen.history
            &&& same_but_lines(before, screen) && before.history == screen.history
            &&& same_but_lines(all, screen) && all.history == screen.history
            &&& screen.feed(sequence(Seq::empty(), 'K')) == behind
        }),
{
    lemma_done(screen, 0, 'K');
    lemma_done(screen, 1, 'K');
    lemma_done(screen, 2, 'K');
    lemma_nothing(screen, 'K');
}

proof fn lemma_nothing(screen: Screen, final_char: char)
    requires
        screen.state == ParseState::Normal,
        final_char == 'J' || final_char == 'K',
    ensures
        screen.feed(sequence(Seq::empty(), final_char)) == done(screen, 0, final_char),
{
    lemma_done(screen, 0, final_char);
    lemma_done_with(screen, Seq::empty(), final_char);
    let none = csi_numbers(Seq::<char>::empty());
    assert(none =~= seq![None]) by {
        assert(before(Seq::<char>::empty(), ':') =~= Seq::<char>::empty());
        assert(split(Seq::<char>::empty(), ';') =~= seq![Seq::<char>::empty()]);
    }
    assert(param(none, 0, 0) == 0);
    assert(param(csi_numbers(decimal(0)), 0, 0) == 0);
}

/// Erasing in the display blanks all behind the cursor, all up to it, or the whole screen,
/// in the order in which text is read; all other cells stay, and so does the history.
pub proof fn erasing_in_the_display_blanks_cells(screen: Screen, row: int, col: int)
    requires
        ready(screen),
        0 <= row < screen.rows,
        0 <= col < screen.cols,
    ensures
        ({
            let cell = screen.lines[row][col];
            let at = screen.cursor;
            let behind = done(screen, 0, 'J');
            let before = done(screen, 1, 'J');
            let all = done(screen, 2, 'J');
            &&& behind.lines[row][col] == (if row > at.row || (row == at.row && col >= at.col) {
                gap(screen)
            } else {
                cell
            })
            &&& before.lines[row][col] == (if row < at.row || (row == at.row && col <= at.col) {
                gap(screen)
            } else {
                cell
            })
            &&& all.lines[row][col] == gap(screen)
            &&& same_but_lines(behind, screen) && behind.history == screen.history
            &&& same_but_lines(before, screen) && before.history == screen.history
            &&& same_but_lines(all, screen) && all.history == screen.history
            &&& screen.feed(sequence(Seq::empty(), 'J')) == behind
        }),
{
    lemma_done(screen, 0, 'J');
    lemma_done(screen, 1, 'J');
    lemma_done(screen, 2, 'J');
    lemma_nothing(screen, 'J');
}

/// Inserting and deleting rows at the cursor moves the rows below by that many rows down or
/// up; what leaves the screen is lost, what comes in is blank, and the rows above stay.
pub proof fn rows_are_inserted_and_deleted(screen: Screen, n: nat, row: int)
    requires
        ready(screen),
        1 <= n <= usize::MAX,
        0 <= row < screen.rows,
    ensures
        ({
            let at = screen.cursor.row;
            let inserted = done(screen, n, 'L');
            let deleted = done(screen, n, 'M');
            let is_blank = |line: Seq<Cell>|
                line.len() == screen.cols && forall|i: int|
                    0 <= i < line.len() ==> #[trigger] line[i] == gap(screen);
            &&& row < at ==> inserted.lines[row] == screen.lines[row]
            &&& at <= row < at + n ==> is_blank(inserted.lines[row])
            &&& at + n <= row ==> inserted.lines[row] == screen.lines[row - n]
            &&& row < at ==> deleted.lines[row] == screen.lines[row]
            &&& at <= row && row + n < screen.rows ==> deleted.lines[row] == screen.lines[row + n]
            &&& at <= row && row + n >= screen.rows ==> is_blank(deleted.lines[row])
            &&& same_but_lines(inserted, screen) && inserted.history == screen.history
            &&& same_but_lines(deleted, screen) && deleted.history == screen.history
        }),
{
    lemma_done(screen, n, 'L');
    lemma_done(screen, n, 'M');
}

/// Inserting and deleting cells at the cursor moves the cells behind by that many columns;
/// what leaves the line is lost, what comes in is blank. Erasing cells blanks that many and
/// moves none. The cells before the cursor stay, and all other lines.
pub proof fn cells_are_inserted_and_deleted(screen: Screen, n: nat, row: int, col: int)
    requires
        ready(screen),
        1 <= n <= usize::MAX,
        0 <= row < screen.rows,
        0 <= col < screen.cols,
    ensures
        ({
            let at = screen.cursor.col;
            let line = screen.lines[row];
            let inserted = done(screen, n, '@');
            let deleted = done(screen, n, 'P');
            let erased = done(screen, n, 'X');
            &&& row != screen.cursor.row || col < at ==> {
                &&& inserted.lines[row][col] == line[col]
                &&& deleted.lines[row][col] == line[col]
                &&& erased.lines[row][col] == line[col]
            }
            &&& row == screen.cursor.row && col >= at ==> {
                &&& inserted.lines[row][col] == (if col < at + n {
                    gap(screen)
                } else {
                    line[col - n]
                })
                &&& deleted.lines[row][col] == (if col + n < screen.cols {
                    line[col + n]
                } else {
                    gap(screen)
                })
                &&& erased.lines[row][col] == (if col < at + n {
                    gap(screen)
                } else {
                    line[col]
                })
            }
            &&& same_but_lines(inserted, screen) && inserted.history == screen.history
            &&& same_but_lines(deleted, screen) && deleted.history == screen.history
            &&& same_but_lines(erased, screen) && erased.history == screen.history
        }),
{
    lemma_done(screen, n, '@');
    lemma_done(screen, n, 'P');
    lemma_done(screen, n, 'X');
}

/// Scrolling up moves the rows up and puts those that leave the screen into the history, one
/// after another; scrolling down moves them down, and what leaves the screen is lost. Blank
/// rows come in. The cursor stays.
pub proof fn the_screen_is_scrolled(screen: Screen, n: nat, row: int)
    requires
        ready(screen),
        1 <= n <= usize::MAX,
        0 <= row < screen.rows,
    ensures
        ({
            let up = done(screen, n, 'S');
            let down = done(screen, n, 'T');
            let is_blank = |line: Seq<Cell>|
                line.len() == screen.cols && forall|i: int|
                    0 <= i < line.len() ==> #[trigger] line[i] == gap(screen);
            &&& row + n < screen.rows ==> up.lines[row] == screen.lines[row + n]
            &&& row + n >= screen.rows ==> is_blank(up.lines[row])
            &&& up.history.len() == screen.history.len() + n
            &&& forall|i: int|
                0 <= i < screen.history.len() ==> #[trigger] up.history[i] == screen.history[i]
            &&& row < n ==> up.history[screen.history.len() + row]
                == crate::cell::trimmed_row(screen.lines[row])
            &&& row < n ==> is_blank(down.lines[row])
            &&& row >= n ==> down.lines[row] == screen.lines[row - n]
            &&& same_but_lines(up, screen)
            &&& same_but_lines(down, screen) && down.history == screen.history
        }),
{
    lemma_done(screen, n, 'S');
    lemma_done(screen, n, 'T');
}

/// A line feed in the last row scrolls the screen up by one row, and a reverse line feed in
/// the first row scrolls it down, outside of synchronized updates.
pub proof fn line_feeds_scroll(screen: Screen)
    requires
        ready(screen),
        !screen.sync_active,
    ensures
        screen.cursor.row + 1 == screen.rows ==> {
            let fed = screen.feed(seq!['\n']);
            let up = done(screen, 1, 'S');
            fed.lines == up.lines && fed.history == up.history && fed.cursor == screen.cursor
        },
        screen.cursor.row == 0 ==> {
            let fed = screen.feed(seq!['\x1b', 'M']);
            let down = done(screen, 1, 'T');
            fed.lines == down.lines && fed.history == screen.history && fed.cursor == screen.cursor
        },
{
    lemma_normal(screen, '\n');
    lemma_escape(screen, 'M');
    lemma_done(screen, 1, 'S');
    lemma_done(screen, 1, 'T');
    let s = screen.cancel_wrap();
    if screen.cursor.row + 1 == screen.rows {
        assert(screen.feed(seq!['\n']) == s.scroll_up(1).clean());
        assert(s.scroll_up(1).lines =~= done(screen, 1, 'S').lines);
        assert(s.scroll_up(1).history =~= done(screen, 1, 'S').history);
    }
    if screen.cursor.row == 0 {
        let t = screen.with_state(ParseState::Esc).with_state(ParseState::Normal).cancel_wrap();
        assert(screen.feed(seq!['\x1b', 'M']) == t.scroll_down(1).clean());
        assert(t.scroll_down(1).lines =~= done(screen, 1, 'T').lines);
    }
}

/// A full reset leaves a blank screen in the plain style with the cursor in its first cell;
/// the size and the history stay.
pub proof fn a_reset_keeps_the_history(screen: Screen, row: int, col: int)
    requires
        ready(screen),
        0 <= row < screen.rows,
        0 <= col < screen.cols,
    ensures
        ({
            let after = screen.feed(seq!['\x1b', 'c']);
            &&& after.rows == screen.rows
            &&& after.cols == screen.cols
            &&& after.history == screen.history
            &&& after.style == plain_style()
            &&& after.cursor == (Position { row: 0, col: 0 })
            &&& after.lines[row][col] == (Cell {
                ch: ' ',
                style: plain_style(),
                wide_cont: false,
            })
            &&& !after.wrap_pending
            &&& !after.sync_active
            &&& after.state == ParseState::Normal
        }),
{
    lemma_escape(screen, 'c');
}

// Renditions
// ----------

proof fn lemma_code(n: nat)
    requires
        n <= u16::MAX,
    ensures
        sgr_codes(decimal(n)) == seq![Some(n as u16)],
{
    lemma_digits(n);
    decimal_reads_back(n, u16::MAX as nat);
    assert(sgr_codes(decimal(n)) =~= seq![Some(n as u16)]);
}

proof fn lemma_rendition(screen: Screen, n: nat)
    requires
        ready(screen),
        n <= u16::MAX,
        n != 38 && n != 48,
    ensures
        done(screen, n, 'm').style == crate::screen::sgr_style(screen.style, n as u16),
{
    lemma_done(screen, n, 'm');
    lemma_code(n);
    let codes = seq![Some(n as u16)];
    assert(sgr_from(screen.style, codes, 0) == sgr_from(
        crate::screen::sgr_style(screen.style, n as u16),
        codes,
        1,
    ));
}

/// A rendition sets or clears what it stands for, and nothing else: eight colours and their
/// bright forms for the text and for the background, the attributes, and the defaults.
pub proof fn renditions_set_the_style(screen: Screen, n: nat)
    requires
        ready(screen),
        n <= u16::MAX,
        n != 38 && n != 48,
    ensures
        ({
            let old = screen.style;
            let new = done(screen, n, 'm').style;
            &&& n == 0 ==> new == (Style {
                fg: None,
                bg: None,
                bold: false,
                dim: false,
                reverse: false,
            })
            &&& n == 1 ==> new == (Style { bold: true, ..old })
            &&& n == 2 ==> new == (Style { dim: true, ..old })
            &&& n == 22 ==> new == (Style { bold: false, dim: false, ..old })
            &&& n == 7 ==> new == (Style { reverse: true, ..old })
            &&& n == 27 ==> new == (Style { reverse: false, ..old })
            &&& 30 <= n < 38 ==> new == (Style { fg: Some((n - 30) as u8), ..old })
            &&& 90 <= n < 98 ==> new == (Style { fg: Some((n - 90 + 8) as u8), ..old })
            &&& n == 39 ==> new == (Style { fg: None, ..old })
            &&& 40 <= n < 48 ==> new == (Style { bg: Some((n - 40) as u8), ..old })
            &&& 100 <= n < 108 ==> new == (Style { bg: Some((n - 100 + 8) as u8), ..old })
            &&& n == 49 ==> new == (Style { bg: None, ..old })
            &&& n != 0 && n != 1 && n != 2 && n != 22 && n != 7 && n != 27 && !(30 <= n < 50)
                && !(90 <= n < 98) && !(100 <= n < 108) ==> new == old
        }),
        screen.feed(sequence(Seq::empty(), 'm')).style == plain_style(),
{
    lemma_rendition(screen, n);
    lemma_done_with(screen, Seq::empty(), 'm');
    let none = sgr_codes(Seq::<char>::empty());
    assert(none =~= seq![Some(0u16)]) by {
        assert(before(Seq::<char>::empty(), ':') =~= Seq::<char>::empty());
        assert(split(Seq::<char>::empty(), ';') =~= seq![Seq::<char>::empty()]);
    }
    assert(sgr_from(screen.style, none, 0) == sgr_from(plain_style(), none, 1));
}

/// Two renditions in one sequence do what they do one after the other.
pub proof fn renditions_add_up(screen: Screen, a: nat, b: nat)
    requires
        ready(screen),
        a <= u16::MAX,
        b <= u16::MAX,
        a != 38 && a != 48 && b != 38 && b != 48,
    ensures
        done_with_two(screen, a, b, 'm').style == done(done(screen, a, 'm'), b, 'm').style,
{
    let body = decimal(a).push(';') + decimal(b);
    lemma_digits(a);
    lemma_digits(b);
    lemma_split_behind(decimal(a), ';', decimal(b));
    decimal_reads_back(a, u16::MAX as nat);
    decimal_reads_back(b, u16::MAX as nat);
    let codes = seq![Some(a as u16), Some(b as u16)];
    assert(sgr_codes(body) =~= codes);
    assert forall|i: int| 0 <= i < body.len() implies ' ' <= #[trigger] body[i] <= '?' by {
        if i < decimal(a).len() {
            assert(body[i] == decimal(a)[i]);
        } else if i > decimal(a).len() {
            assert(body[i] == decimal(b)[i - decimal(a).len() - 1]);
        }
    }
    assert(body[0] == decimal(a)[0]);
    lemma_done_with(screen, body, 'm');
    let one = crate::screen::sgr_style(screen.style, a as u16);
    let two = crate::screen::sgr_style(one, b as u16);
    assert(sgr_from(two, codes, 2) == two);
    assert(sgr_from(one, codes, 1) == sgr_from(two, codes, 2));
    assert(sgr_from(screen.style, codes, 0) == sgr_from(one, codes, 1));
    lemma_rendition(screen, a);
    lemma_done(screen, a, 'm');
    lemma_rendition(done(screen, a, 'm'), b);
}

/// An entry of the palette is named by its number behind `38;5` for the text and `48;5` for
/// the background.
pub proof fn palette_entries_are_set(screen: Screen, n: nat)
    requires
        ready(screen),
        n <= 255,
    ensures
        ({
            let body = |code: nat|
                decimal(code).push(';') + decimal(5).push(';') + decimal(n);
            &&& screen.feed(sequence(body(38), 'm')).style == (Style {
                fg: Some(n as u8),
                ..screen.style
            })
            &&& screen.feed(sequence(body(48), 'm')).style == (Style {
                bg: Some(n as u8),
                ..screen.style
            })
        }),
{
    lemma_extended(screen, 38, n);
    lemma_extended(screen, 48, n);
}

proof fn lemma_extended(screen: Screen, code: nat, n: nat)
    requires
        ready(screen),
        n <= 255,
        code == 38 || code == 48,
    ensures
        screen.feed(
            sequence(decimal(code).push(';') + decimal(5).push(';') + decimal(n), 'm'),
        ).style == (if code == 38 {
            Style { fg: Some(n as u8), ..screen.style }
        } else {
            Style { bg: Some(n as u8), ..screen.style }
        }),
{
    let first = decimal(code).push(';') + decimal(5);
    let body = decimal(code).push(';') + decimal(5).push(';') + decimal(n);
    lemma_digits(code);
    lemma_digits(5);
    lemma_digits(n);
    assert(body =~= first.push(';') + decimal(n));
    lemma_split_behind(decimal(code), ';', decimal(5));
    lemma_split_behind(first, ';', decimal(n));
    decimal_reads_back(code, u16::MAX as nat);
    decimal_reads_back(5, u16::MAX as nat);
    decimal_reads_back(n, u16::MAX as nat);
    let codes = seq![Some(code as u16), Some(5u16), Some(n as u16)];
    assert(sgr_codes(body) =~= codes);
    assert forall|i: int| 0 <= i < body.len() implies ' ' <= #[trigger] body[i] <= '?' by {
        let a = decimal(code).len();
        let b = decimal(5).len();
        if i < a {
            assert(body[i] == decimal(code)[i]);
        } else if a < i < a + 1 + b {
            assert(body[i] == decimal(5)[i - a - 1]);
        } else if i > a + 1 + b {
            assert(body[i] == decimal(n)[i - a - b - 2]);
        }
    }
    assert(body[0] == decimal(code)[0]);
    lemma_done_with(screen, body, 'm');
    let style = if code == 38 {
        Style { fg: Some(n as u8), ..screen.style }
    } else {
        Style { bg: Some(n as u8), ..screen.style }
    };
    assert(sgr_from(style, codes, 3) == style);
    assert(sgr_from(screen.style, codes, 0) == sgr_from(style, codes, 3));
}

/// A colour given by its channels becomes the nearest entry: of the cube of six levels for
/// each channel, or of the ramp of greys where the channels are equal; black and white at
/// the ends of the ramp are those of the cube.
pub proof fn colours_become_the_nearest_entry(r: u8, g: u8, b: u8)
    ensures
        16 <= palette_entry(r, g, b) <= 255,
        !(r == g && g == b) ==> {
            let entry = palette_entry(r, g, b) - 16;
            let red = entry / 36;
            let green = (entry / 6) % 6;
            let blue = entry % 6;
            &&& entry < 216
            &&& -51 <= 2 * (51 * red - r) <= 51
            &&& -51 <= 2 * (51 * green - g) <= 51
            &&& -51 <= 2 * (51 * blue - b) <= 51
        },
        r == g && g == b ==> {
            let entry = palette_entry(r, g, b);
            &&& r < 8 ==> entry == 16
            &&& r > 248 ==> entry == 231
            &&& 8 <= r <= 248 ==> entry >= 232 && -247 <= 2 * (247 * (entry - 232) - 24 * (r - 8))
                <= 247
        },
{
    let red = crate::screen::cube_level(r) as int;
    let green = crate::screen::cube_level(g) as int;
    let blue = crate::screen::cube_level(b) as int;
    let entry = 36 * red + 6 * green + blue;
    assert(0 <= red <= 5 && 0 <= green <= 5 && 0 <= blue <= 5);
    assert(entry / 36 == red && (entry / 6) % 6 == green && entry % 6 == blue);
}

/// Synchronized updates are begun and ended by their private mode.
pub proof fn synchronized_updates_begin_and_end(screen: Screen)
    requires
        ready(screen),
    ensures
        ({
            let begun = screen.feed(sequence(seq!['?'] + decimal(2026), 'h'));
            let ended = screen.feed(sequence(seq!['?'] + decimal(2026), 'l'));
            &&& begun == (Screen { csi: Seq::empty(), sync_active: true, ..screen })
            &&& ended == (Screen { csi: Seq::empty(), sync_active: false, ..screen })
        }),
{
    let params = seq!['?'] + decimal(2026);
    lemma_digits(2026);
    lemma_number(2026);
    assert forall|i: int| 0 <= i < params.len() implies ' ' <= #[trigger] params[i] <= '?' by {
        if i > 0 {
            assert(params[i] == decimal(2026)[i - 1]);
        }
    }
    lemma_private(screen, params, 'h');
    lemma_private(screen, params, 'l');
    assert(params.skip(1) =~= decimal(2026));
    assert(csi_numbers(decimal(2026))[0] == Some(2026nat));
    assert(csi_numbers(decimal(2026)).contains(Some(2026nat)));
}

#[verifier::rlimit(30)]
proof fn lemma_private(screen: Screen, params: Seq<char>, final_char: char)
    requires
        screen.state == ParseState::Normal,
        params.len() > 1,
        params[0] == '?',
        forall|i: int| 0 <= i < params.len() ==> ' ' <= #[trigger] params[i] <= '?',
        final_char == 'h' || final_char == 'l',
    ensures
        screen.feed(sequence(params, final_char)) == (Screen {
            csi: Seq::empty(),
            ..screen
        }).control(final_char, Some('?'), params.skip(1)),
{
    lemma_sequence(screen, params, final_char);
    let seq = params.push(final_char);
    assert(seq.drop_last() =~= params);
    assert forall|i: int| 0 <= i < seq.len() - 1 implies ' ' <= #[trigger] seq[i] <= '?' by {
        assert(seq[i] == params[i]);
    }
    assert(csi_body(seq) == params.skip(1));
}

// Text
// ----

/// The terminal where the next character is written, if it takes up `width` columns: where
/// the cursor is, or in the next line if the line is full or has no room for it.
pub open spec fn writing_place(screen: Screen, width: nat) -> Screen {
    if screen.wrap_pending || (width == 2 && screen.cursor.col + 2 > screen.cols) {
        screen.feed(seq!['\r', '\n'])
    } else {
        screen
    }
}

/// A character is written in the current style where the cursor is, or at the start of the
/// next line if there is no room for it; a wide one covers the cell behind. The cursor goes
/// past it, or stays in the last column with a wrap pending. No other cell changes.
pub proof fn characters_are_written_at_the_cursor(screen: Screen, ch: char, row: int, col: int)
    requires
        ready(screen),
        !screen.sync_active,
        ch as u32 >= 32,
        ch as u32 != 127,
        cell_columns(ch) <= 2,
        cell_columns(ch) <= screen.cols,
        0 <= row < screen.rows,
        0 <= col < screen.cols,
    ensures
        ({
            let width = cell_columns(ch);
            let start = writing_place(screen, width);
            let after = screen.feed(seq![ch]);
            let at = start.cursor;
            let style = screen.style;
            &&& start.wf()
            &&& at.col + width <= screen.cols
            &&& after.history == start.history
            &&& after.style == style
            &&& after.saved == screen.saved
            &&& after.cursor.row == at.row
            &&& at.col + width < screen.cols ==> after.cursor.col == at.col + width
                && !after.wrap_pending
            &&& at.col + width == screen.cols ==> after.cursor.col + 1 == screen.cols
                && after.wrap_pending
            &&& after.lines[row][col] == (if row == at.row && col == at.col {
                Cell { ch, style, wide_cont: false }
            } else if row == at.row && width == 2 && col == at.col + 1 {
                Cell { ch: ' ', style, wide_cont: true }
            } else {
                start.lines[row][col]
            })
        }),
{
    let width = cell_columns(ch);
    let start = writing_place(screen, width);
    lemma_writing_place(screen, width);
    lemma_normal(screen, ch);
    lemma_written(screen, ch);
    let written = start.write_cell(ch, width).advance(width);
    let after = screen.feed(seq![ch]);
    assert(after.lines == written.lines);
}

proof fn lemma_writing_place(screen: Screen, width: nat)
    requires
        ready(screen),
        !screen.sync_active,
        width <= 2,
        width <= screen.cols,
    ensures
        ({
            let start = writing_place(screen, width);
            &&& start == (if screen.wrap_pending || (width == 2 && screen.cursor.col + 2
                > screen.cols) {
                screen.cancel_wrap().with_col(0).cancel_wrap().linefeed()
            } else {
                screen
            })
            &&& start.wf()
            &&& start.cursor.col + width <= screen.cols || width == 0
            &&& start.style == screen.style
            &&& start.saved == screen.saved
            &&& start.rows == screen.rows
            &&& start.cols == screen.cols
        }),
{
    if screen.wrap_pending || (width == 2 && screen.cursor.col + 2 > screen.cols) {
        lemma_two_chars(screen, '\r', '\n');
        lemma_states(screen, '\r');
        let turned = screen.cancel_wrap().with_col(0);
        assert(screen.feed_char('\r') == turned);
        lemma_states(turned, '\n');
        lemma_linefeed_wf(turned.cancel_wrap());
    }
}

proof fn lemma_linefeed_wf(screen: Screen)
    requires
        screen.wf(),
        !screen.sync_active,
    ensures
        screen.linefeed().wf(),
        screen.linefeed().cursor.col == screen.cursor.col,
        screen.linefeed().wrap_pending == screen.wrap_pending,
        screen.linefeed().style == screen.style,
        screen.linefeed().saved == screen.saved,
        screen.linefeed().cols == screen.cols,
        screen.linefeed().rows == screen.rows,
{
    let up = screen.scroll_up(1);
    assert forall|i: int| 0 <= i < up.history.len() implies (#[trigger] up.history[i]).len()
        <= up.cols by {
        if i < screen.history.len() {
            assert(up.history[i] == screen.history[i]);
        } else {
            crate::cell::trimming_keeps_the_start(screen.lines[0]);
            crate::cell::trimming_keeps_the_start(screen.blank());
        }
    }
}

proof fn lemma_written(screen: Screen, ch: char)
    requires
        ready(screen),
        !screen.sync_active,
        cell_columns(ch) <= 2,
        cell_columns(ch) <= screen.cols,
    ensures
        ({
            let width = cell_columns(ch);
            let s = if screen.wrap_pending || (width == 2 && screen.cursor.col + 2 > screen.cols) {
                screen.cancel_wrap().with_col(0).cancel_wrap().linefeed()
            } else {
                screen
            };
            let written = s.write_cell(ch, width).advance(width);
            let after = screen.put_char(ch);
            &&& after.lines == written.lines
            &&& after.history == written.history
            &&& after.cursor == written.cursor
            &&& after.wrap_pending == written.wrap_pending
            &&& after.style == written.style
            &&& after.saved == written.saved
        }),
{
    let width = cell_columns(ch);
    let a = screen.cancel_wrap().with_col(0).cancel_wrap().linefeed();
    lemma_linefeed_wf(screen);
    if screen.wrap_pending {
        let b = screen.linefeed().with_col(0).cancel_wrap();
        assert(b.lines =~= a.lines);
        assert(b.history =~= a.history);
        assert(b.cursor == a.cursor);
    } else if width == 2 && screen.cursor.col + 2 > screen.cols {
        let b = screen.with_col(0).linefeed();
        assert(b.lines =~= a.lines);
        assert(b.history =~= a.history);
        assert(b.cursor == a.cursor);
    }
}

/// Control sequences that are not well formed, and functions that are not known, change
/// nothing.
pub proof fn other_sequences_are_ignored(screen: Screen, params: Seq<char>, final_char: char)
    requires
        ready(screen),
        forall|i: int| 0 <= i < params.len() ==> ' ' <= #[trigger] params[i] <= '?',
        final_char == 'I' || final_char == 'N' || final_char == 'O' || final_char == 'Q'
            || final_char == 'R' || final_char == 'U' || final_char == 'V' || final_char == 'W'
            || 'Y' <= final_char <= 'e' || final_char == 'g' || 'i' <= final_char <= 'k'
            || 'n' <= final_char <= 'r' || final_char == 't' || 'v' <= final_char <= '~',
    ensures
        screen.feed(sequence(params, final_char)) == (Screen { csi: Seq::empty(), ..screen }),
{
    lemma_sequence(screen, params, final_char);
    let seq = params.push(final_char);
    assert(seq.last() == final_char);
}

/// A colour by its channels is named behind `38;2` for the text and `48;2` for the background;
/// what follows the three channels is read on its own.
#[verifier::spinoff_prover]
pub proof fn colours_by_their_channels_are_set(
    style: Style,
    codes: Seq<Option<u16>>,
    r: u8,
    g: u8,
    b: u8,
)
    requires
        codes.len() >= 5,
        codes[0] == Some(38u16) || codes[0] == Some(48u16),
        codes[1] == Some(2u16),
        codes[2] == Some(r as u16),
        codes[3] == Some(g as u16),
        codes[4] == Some(b as u16),
    ensures
        ({
            let entry = palette_entry(r, g, b) as u8;
            let coloured = if codes[0] == Some(38u16) {
                Style { fg: Some(entry), ..style }
            } else {
                Style { bg: Some(entry), ..style }
            };
            sgr_from(style, codes, 0) == sgr_from(coloured, codes, 5)
        }),
{
    lemma_channels(codes, r, g, b);
}

proof fn lemma_channels(codes: Seq<Option<u16>>, r: u8, g: u8, b: u8)
    requires
        codes.len() >= 5,
        codes[1] == Some(2u16),
        codes[2] == Some(r as u16),
        codes[3] == Some(g as u16),
        codes[4] == Some(b as u16),
    ensures
        crate::screen::extended_color(codes, 1) == Some(palette_entry(r, g, b) as u8),
        crate::screen::extended_len(codes, 1) == 4,
{
    assert(crate::screen::low_byte(r as u16) == r);
    assert(crate::screen::low_byte(g as u16) == g);
    assert(crate::screen::low_byte(b as u16) == b);
}

/// During a synchronized update, a line feed in the last row moves the whole screen if
/// anything left of the middle has been written in that row, and otherwise the last three
/// rows only; outside of such updates it always moves the whole screen.
pub proof fn the_left_half_decides_what_scrolls(screen: Screen, written: nat)
    requires
        screen.wf(),
        screen.rows >= 4,
        screen.cursor.row + 1 == screen.rows,
        screen.dirty == Some(written),
    ensures
        ({
            let fed = screen.linefeed();
            let whole = !screen.sync_active || 2 * written + 1 < screen.cols;
            &&& whole ==> fed.history.len() == screen.history.len() + 1
            &&& whole ==> fed.lines[0] == screen.lines[1]
            &&& !whole ==> fed.history == screen.history
            &&& !whole ==> fed.lines[0] == screen.lines[0]
            &&& !whole ==> fed.lines[screen.rows - 3] == screen.lines[screen.rows - 2]
            &&& fed.dirty is None
        }),
{
}

/// What has been written in a row is the leftmost column of it.
pub proof fn the_leftmost_change_counts(screen: Screen, col: nat)
    ensures
        ({
            let after = screen.mark_dirty(col);
            &&& screen.dirty is None ==> after.dirty == Some(col)
            &&& screen.dirty matches Some(before) ==> {
                &&& after.dirty is Some
                &&& after.dirty->0 <= before
                &&& after.dirty->0 <= col
                &&& after.dirty->0 == before || after.dirty->0 == col
            }
        }),
{
}

/// What stands behind a colon in a parameter is ignored.
pub proof fn what_is_behind_a_colon_is_ignored(n: nat, rest: Seq<char>)
    requires
        n <= u16::MAX,
    ensures
        crate::screen::csi_number(decimal(n).push(':') + rest) == Some(n),
        crate::screen::sgr_code(decimal(n).push(':') + rest) == Some(n as u16),
{
    lemma_digits(n);
    crate::text::the_start_is_before_the_separator(decimal(n), ':', rest);
    decimal_reads_back(n, usize::MAX as nat);
    decimal_reads_back(n, u16::MAX as nat);
}

} // verus!
