//! Selecting text: places between which a selection extends, motions over columns and
//! words, the text that is selected, and its highlighting.

use crate::cell::{row_text, row_to_text, Cell, Style};
use crate::text::{
    alphanumeric, is_alphanumeric, is_white_space, unicode_alphanumeric, white_space,
};
use vstd::prelude::*;

verus! {

/// A place in a table of rows. Places are ordered by row, then by column.
#[derive(Debug, Clone, Copy, PartialEq, Eq, PartialOrd, Ord, Structural)]
pub struct SelectionPoint {
    pub row: usize,
    pub col: usize,
}

/// What is selected between two places.
#[derive(Debug, Clone, Copy, PartialEq, Eq, Structural)]
pub enum SelectionMode {
    /// The characters from the first place up to the second, both included.
    Character,
    /// The whole rows.
    Line,
}

/// A selection between two places, in either order.
#[derive(Debug, Clone, Copy, PartialEq, Eq, Structural)]
pub struct Selection {
    pub mode: SelectionMode,
    pub anchor: SelectionPoint,
    pub cursor: SelectionPoint,
}

/// A motion by words.
#[derive(Debug, Clone, Copy, PartialEq, Eq, Structural)]
pub enum WordMotion {
    /// To the start of the next word.
    ForwardStart,
    /// To the end of this word; from white space, and where the word ends here, to the end
    /// of the next one.
    ForwardEnd,
    /// To the start of this word; from white space, and where the word starts here, to the
    /// start of the previous one.
    BackwardStart,
}

/// Whether `a` comes before `b` or is the same place.
pub open spec fn not_after(a: SelectionPoint, b: SelectionPoint) -> bool {
    a.row < b.row || (a.row == b.row && a.col <= b.col)
}

impl Selection {
    /// A selection of the one place `anchor`.
    pub fn new(mode: SelectionMode, anchor: SelectionPoint) -> (r: Self)
        ensures
            r == (Selection { mode, anchor, cursor: anchor }),
    {
        Selection { mode, anchor, cursor: anchor }
    }

    /// The first of the two places.
    pub open spec fn start(self) -> SelectionPoint {
        if not_after(self.anchor, self.cursor) {
            self.anchor
        } else {
            self.cursor
        }
    }

    /// The second of the two places.
    pub open spec fn end(self) -> SelectionPoint {
        if not_after(self.anchor, self.cursor) {
            self.cursor
        } else {
            self.anchor
        }
    }

    /// The two places in order.
    pub fn ordered(self) -> (r: (SelectionPoint, SelectionPoint))
        ensures
            r == (self.start(), self.end()),
            not_after(r.0, r.1),
    {
        if self.anchor.row < self.cursor.row || (self.anchor.row == self.cursor.row
            && self.anchor.col <= self.cursor.col) {
            (self.anchor, self.cursor)
        } else {
            (self.cursor, self.anchor)
        }
    }

    /// The number of rows that the selection touches.
    pub open spec fn lines(self) -> nat {
        (self.end().row - self.start().row + 1) as nat
    }

    /// The number of rows that the selection touches.
    pub fn line_span(self) -> (r: usize)
        requires
            self.lines() <= usize::MAX,
        ensures
            r == self.lines(),
    {
        let (start, end) = self.ordered();
        end.row - start.row + 1
    }
}

// Words
// -----

/// What kind of word a character belongs to.
#[derive(Debug, Clone, Copy, PartialEq, Eq, Structural)]
pub enum WordClass {
    Space,
    Word,
    Punct,
}

/// White space; letters, digits and underscores; or anything else.
pub open spec fn word_class(ch: char) -> WordClass {
    if white_space(ch) {
        WordClass::Space
    } else if alphanumeric(ch) || ch == '_' {
        WordClass::Word
    } else {
        WordClass::Punct
    }
}

fn classify_word(ch: char) -> (r: WordClass)
    ensures
        r == word_class(ch),
{
    if is_white_space(ch) {
        WordClass::Space
    } else if is_alphanumeric(ch) || ch == '_' {
        WordClass::Word
    } else {
        WordClass::Punct
    }
}

// Columns
// -------

/// The first column from `from` on that is not a continuation.
pub open spec fn char_from(cells: Seq<Cell>, from: int) -> Option<int>
    decreases cells.len() - from,
{
    if from >= cells.len() {
        None
    } else if !cells[from].wide_cont {
        Some(from)
    } else {
        char_from(cells, from + 1)
    }
}

/// The last column before `to` that is not a continuation.
pub open spec fn char_below(cells: Seq<Cell>, to: int) -> Option<int>
    decreases to,
{
    if to <= 0 {
        None
    } else if !cells[to - 1].wide_cont {
        Some(to - 1)
    } else {
        char_below(cells, to - 1)
    }
}

/// The class of the character at a column, if there is one.
pub open spec fn class_at(cells: Seq<Cell>, col: Option<int>) -> Option<WordClass> {
    match col {
        Some(found) => Some(word_class(cells[found].ch)),
        None => None,
    }
}

/// Whether a word starts at a column: it holds no white space, and the character before it
/// in its row, if there is one, is of another class.
pub open spec fn starts_word(cells: Seq<Cell>, col: int) -> bool {
    let class = word_class(cells[col].ch);
    class != WordClass::Space && class_at(cells, char_below(cells, col)) != Some(class)
}

/// Whether a word ends at a column: it holds no white space, and the character behind it in
/// its row, if there is one, is of another class.
pub open spec fn ends_word(cells: Seq<Cell>, col: int) -> bool {
    let class = word_class(cells[col].ch);
    class != WordClass::Space && class_at(cells, char_from(cells, col + 1)) != Some(class)
}

/// What is looked for among the characters of a row.
#[derive(Debug, Clone, Copy)]
pub enum Mark {
    /// A character that is not a blank.
    Filled,
    WordStart,
    WordEnd,
}

/// Whether the cell at a column is a character that is looked for.
pub open spec fn is_marked(cells: Seq<Cell>, col: int, mark: Mark) -> bool {
    !cells[col].wide_cont && match mark {
        Mark::Filled => cells[col].ch != ' ',
        Mark::WordStart => starts_word(cells, col),
        Mark::WordEnd => ends_word(cells, col),
    }
}

/// The first column from `from` on with what is looked for.
pub open spec fn first_from(cells: Seq<Cell>, from: int, mark: Mark) -> Option<int>
    decreases cells.len() - from,
{
    if from >= cells.len() {
        None
    } else if is_marked(cells, from, mark) {
        Some(from)
    } else {
        first_from(cells, from + 1, mark)
    }
}

/// The last column before `to` with what is looked for.
pub open spec fn last_below(cells: Seq<Cell>, to: int, mark: Mark) -> Option<int>
    decreases to,
{
    if to <= 0 {
        None
    } else if is_marked(cells, to - 1, mark) {
        Some(to - 1)
    } else {
        last_below(cells, to - 1, mark)
    }
}

fn find_char_from(cells: &[Cell], from: usize) -> (r: Option<usize>)
    ensures
        match r {
            Some(col) => {
                &&& char_from(cells@, from as int) == Some(col as int)
                &&& from <= col < cells@.len()
            },
            None => char_from(cells@, from as int) is None,
        },
{
    let mut i: usize = from;
    while i < cells.len()
        invariant
            from <= i,
            char_from(cells@, from as int) == char_from(cells@, i as int),
        decreases cells@.len() - i,
    {
        if !cells[i].wide_cont {
            return Some(i);
        }
        i += 1;
    }
    None
}

fn find_char_below(cells: &[Cell], to: usize) -> (r: Option<usize>)
    requires
        to <= cells@.len(),
    ensures
        match r {
            Some(col) => {
                &&& char_below(cells@, to as int) == Some(col as int)
                &&& col < to
            },
            None => char_below(cells@, to as int) is None,
        },
{
    let mut i: usize = to;
    while i > 0
        invariant
            i <= to <= cells@.len(),
            char_below(cells@, to as int) == char_below(cells@, i as int),
        decreases i,
    {
        if !cells[i - 1].wide_cont {
            return Some(i - 1);
        }
        i -= 1;
    }
    None
}

fn has_mark(cells: &[Cell], col: usize, mark: Mark) -> (r: bool)
    requires
        col < cells@.len(),
    ensures
        r == is_marked(cells@, col as int, mark),
{
    let cell: Cell = cells[col];
    if cell.wide_cont {
        return false;
    }
    let beside: Option<usize> = match mark {
        Mark::Filled => {
            return cell.ch != ' ';
        },
        Mark::WordStart => find_char_below(cells, col),
        Mark::WordEnd => {
            let total: usize = cells.len();
            assert(col < total);
            find_char_from(cells, col + 1)
        },
    };
    let class: WordClass = classify_word(cell.ch);
    class != WordClass::Space && match beside {
        Some(other) => classify_word(cells[other].ch) != class,
        None => true,
    }
}

fn find_from(cells: &[Cell], from: usize, mark: Mark) -> (r: Option<usize>)
    ensures
        match r {
            Some(col) => {
                &&& first_from(cells@, from as int, mark) == Some(col as int)
                &&& from <= col < cells@.len()
            },
            None => first_from(cells@, from as int, mark) is None,
        },
{
    let mut i: usize = from;
    while i < cells.len()
        invariant
            from <= i,
            first_from(cells@, from as int, mark) == first_from(cells@, i as int, mark),
        decreases cells@.len() - i,
    {
        if has_mark(cells, i, mark) {
            return Some(i);
        }
        i += 1;
    }
    None
}

fn find_below(cells: &[Cell], to: usize, mark: Mark) -> (r: Option<usize>)
    requires
        to <= cells@.len(),
    ensures
        match r {
            Some(col) => {
                &&& last_below(cells@, to as int, mark) == Some(col as int)
                &&& col < to
            },
            None => last_below(cells@, to as int, mark) is None,
        },
{
    let mut i: usize = to;
    while i > 0
        invariant
            i <= to <= cells@.len(),
            last_below(cells@, to as int, mark) == last_below(cells@, i as int, mark),
        decreases i,
    {
        if has_mark(cells, i - 1, mark) {
            return Some(i - 1);
        }
        i -= 1;
    }
    None
}

/// A column that was found, or else the first one.
pub open spec fn or_first(found: Option<int>) -> int {
    match found {
        Some(col) => col,
        None => 0,
    }
}

/// The first column that is not blank; in a blank row, the first one.
pub open spec fn first_column(row: Seq<Cell>) -> int {
    match first_from(row, 0, Mark::Filled) {
        Some(col) => col,
        None => or_first(char_from(row, 0)),
    }
}

/// The last column that is not a continuation.
pub open spec fn last_column(row: Seq<Cell>) -> int {
    or_first(char_below(row, row.len() as int))
}

/// The column of the character at `col`, which may be its continuation; beyond the end,
/// the last column.
pub open spec fn normal_column(row: Seq<Cell>, col: int) -> int {
    or_first(
        char_below(
            row,
            if col < row.len() {
                col + 1
            } else {
                row.len() as int
            },
        ),
    )
}

/// The column of the character before the one at `col`.
pub open spec fn column_before(row: Seq<Cell>, col: int) -> int {
    or_first(char_below(row, normal_column(row, col)))
}

/// The column of the character behind the one at `col`; at the end, the last column.
pub open spec fn column_behind(row: Seq<Cell>, col: int) -> int {
    match char_from(row, normal_column(row, col) + 1) {
        Some(next) => next,
        None => last_column(row),
    }
}

/// The number of columns of the character at `col`.
pub open spec fn width_at(row: Seq<Cell>, col: int) -> int {
    if col + 1 < row.len() && row[col + 1].wide_cont {
        2
    } else {
        1
    }
}

/// The first column behind the character at `col`.
pub open spec fn end_column(row: Seq<Cell>, col: int) -> int {
    if row.len() == 0 {
        0
    } else {
        normal_column(row, col) + width_at(row, normal_column(row, col))
    }
}

/// The first column that is not blank; in a blank row, the first one.
pub fn first_selectable_col(row: &[Cell]) -> (r: usize)
    ensures
        r == first_column(row@),
        r < row@.len() || r == 0,
{
    match find_from(row, 0, Mark::Filled) {
        Some(col) => col,
        None => match find_char_from(row, 0) {
            Some(col) => col,
            None => 0,
        },
    }
}

/// The last column that is not a continuation.
pub fn last_selectable_col(row: &[Cell]) -> (r: usize)
    ensures
        r == last_column(row@),
        r < row@.len() || r == 0,
{
    match find_char_below(row, row.len()) {
        Some(col) => col,
        None => 0,
    }
}

/// The column of the character at `col`, which may be its continuation; beyond the end,
/// the last column.
pub fn normalize_col(row: &[Cell], col: usize) -> (r: usize)
    ensures
        r == normal_column(row@, col as int),
        r < row@.len() || r == 0,
        r <= col,
{
    let to: usize = if col < row.len() {
        col + 1
    } else {
        row.len()
    };
    match find_char_below(row, to) {
        Some(idx) => idx,
        None => 0,
    }
}

/// The column of the character before the one at `col`.
pub fn previous_col(row: &[Cell], col: usize) -> (r: usize)
    ensures
        r == column_before(row@, col as int),
        r < row@.len() || r == 0,
{
    let idx: usize = normalize_col(row, col);
    match find_char_below(row, idx) {
        Some(before) => before,
        None => 0,
    }
}

/// The column of the character behind the one at `col`; at the end, the last column.
pub fn next_col(row: &[Cell], col: usize) -> (r: usize)
    ensures
        r == column_behind(row@, col as int),
        r < row@.len() || r == 0,
{
    if row.len() == 0 {
        return 0;
    }
    let idx: usize = normalize_col(row, col);
    match find_char_from(row, idx + 1) {
        Some(next) => next,
        None => last_selectable_col(row),
    }
}

fn cell_width(row: &[Cell], idx: usize) -> (r: usize)
    requires
        idx < row@.len(),
    ensures
        r == width_at(row@, idx as int),
{
    let total: usize = row.len();
    if idx + 1 < total && row[idx + 1].wide_cont {
        2
    } else {
        1
    }
}

fn selection_end_exclusive(row: &[Cell], col: usize) -> (r: usize)
    ensures
        r == end_column(row@, col as int),
        r <= row@.len(),
{
    if row.len() == 0 {
        return 0;
    }
    let total: usize = row.len();
    let idx: usize = normalize_col(row, col);
    assert(idx < total);
    idx + cell_width(row, idx)
}

// Highlighting
// ------------

/// The columns of a row that are selected, from the first up to and without the second.
pub open spec fn selected_range(selection: Selection, row_index: int, row: Seq<Cell>) -> Option<
    (int, int),
> {
    let start = selection.start();
    let end = selection.end();
    if row_index < start.row || row_index > end.row || row.len() == 0 {
        None
    } else {
        let (from, to) = row_range(selection, row_index, row);
        if from >= to {
            None
        } else {
            Some((from, to))
        }
    }
}

/// The bounds of the selection in one of its rows. They cross where nothing is selected.
pub open spec fn row_range(selection: Selection, row_index: int, row: Seq<Cell>) -> (int, int) {
    match selection.mode {
        SelectionMode::Line => (0, row.len() as int),
        SelectionMode::Character => (
            if row_index == selection.start().row {
                normal_column(row, selection.start().col as int)
            } else {
                0
            },
            if row_index == selection.end().row {
                end_column(row, selection.end().col as int)
            } else {
                row.len() as int
            },
        ),
    }
}

/// The style of a selected cell: on a grey background, neither reversed nor dimmed.
pub open spec fn highlighted_style(style: Style) -> Style {
    Style { bg: Some(238u8), reverse: false, dim: false, ..style }
}

/// A cell with the style of a selected one.
pub open spec fn highlighted_cell(cell: Cell) -> Cell {
    Cell { style: highlighted_style(cell.style), ..cell }
}

/// A row with its selected columns highlighted.
pub open spec fn highlighted(row: Seq<Cell>, row_index: int, selection: Selection) -> Seq<Cell> {
    match selected_range(selection, row_index, row) {
        Some((from, to)) => row.map(
            |i: int, cell: Cell|
                if from <= i < to {
                    highlighted_cell(cell)
                } else {
                    cell
                },
        ),
        None => row,
    }
}

fn highlight_style(style: Style) -> (r: Style)
    ensures
        r == highlighted_style(style),
{
    Style { bg: Some(238), reverse: false, dim: false, ..style }
}

fn row_columns(selection: &Selection, row_index: usize, row: &[Cell]) -> (r: (usize, usize))
    requires
        row@.len() > 0,
    ensures
        (r.0 as int, r.1 as int) == row_range(*selection, row_index as int, row@),
        r.1 <= row@.len(),
{
    let (start, end) = selection.ordered();
    match selection.mode {
        SelectionMode::Line => (0, row.len()),
        SelectionMode::Character => {
            let from: usize = if row_index == start.row {
                normalize_col(row, start.col)
            } else {
                0
            };
            let to: usize = if row_index == end.row {
                selection_end_exclusive(row, end.col)
            } else {
                row.len()
            };
            (from, to)
        },
    }
}

fn selected_columns(selection: &Selection, row_index: usize, row: &[Cell]) -> (r: Option<
    (usize, usize),
>)
    ensures
        match r {
            Some((from, to)) => {
                &&& selected_range(*selection, row_index as int, row@) == Some(
                    (from as int, to as int),
                )
                &&& to <= row@.len()
            },
            None => selected_range(*selection, row_index as int, row@) is None,
        },
{
    let (start, end) = selection.ordered();
    if row_index < start.row || row_index > end.row {
        return None;
    }
    if row.len() == 0 {
        return None;
    }
    let (from, to) = row_columns(selection, row_index, row);
    if from >= to {
        None
    } else {
        Some((from, to))
    }
}

/// Highlights what is selected of row `row_index`.
pub fn apply_selection_highlight(row: &mut [Cell], row_index: usize, selection: &Selection)
    ensures
        final(row)@ == highlighted(old(row)@, row_index as int, *selection),
{
    let ghost before = row@;
    match selected_columns(selection, row_index, row) {
        None => {},
        Some((from, to)) => {
            let mut i: usize = from;
            while i < to
                invariant
                    from <= i <= to,
                    to <= row@.len(),
                    row@.len() == before.len(),
                    forall|k: int|
                        0 <= k < row@.len() ==> row@[k] == (if from <= k < i {
                            highlighted_cell(before[k])
                        } else {
                            before[k]
                        }),
                decreases to - i,
            {
                let cell: Cell = row[i];
                row[i] = Cell { style: highlight_style(cell.style), ..cell };
                i += 1;
            }
            assert(row@ =~= highlighted(before, row_index as int, *selection));
        },
    }
}

// Tables of rows
// --------------

/// The view of a row that may be missing.
pub open spec fn row_view(row: Option<Vec<Cell>>) -> Option<Seq<Cell>> {
    match row {
        Some(cells) => Some(cells@),
        None => None,
    }
}

/// The row at `index` in a table; a table may lack rows.
pub open spec fn row_of(table: Map<int, Seq<Cell>>, index: int) -> Option<Seq<Cell>> {
    if table.contains_key(index) {
        Some(table[index])
    } else {
        None
    }
}

/// Whether all that `row_at` can return for an index in `[from, to)` is that row of the
/// table.
pub open spec fn answers<F: Fn(usize) -> Option<Vec<Cell>>>(
    row_at: F,
    table: Map<int, Seq<Cell>>,
    from: int,
    to: int,
) -> bool {
    forall|i: usize, row: Option<Vec<Cell>>|
        from <= i < to && #[trigger] call_ensures(row_at, (i,), row) ==> row_view(row) == row_of(
            table,
            i as int,
        )
}

// The text of a selection
// -----------------------

/// Texts put together, with a line feed between them.
pub open spec fn joined_lines(parts: Seq<Seq<char>>) -> Seq<char>
    decreases parts.len(),
{
    if parts.len() == 0 {
        Seq::empty()
    } else if parts.len() == 1 {
        parts[0]
    } else {
        joined_lines(parts.drop_last()).push('\n') + parts.last()
    }
}

/// The text that is selected in a row; a row that is missing is empty.
pub open spec fn row_selection(
    selection: Selection,
    table: Map<int, Seq<Cell>>,
    row_index: int,
) -> Seq<char> {
    match row_of(table, row_index) {
        None => Seq::empty(),
        Some(row) => selected_row_text(selection, row_index, row),
    }
}

/// The text that is selected in a given row, without the blanks at its end.
pub open spec fn selected_row_text(
    selection: Selection,
    row_index: int,
    row: Seq<Cell>,
) -> Seq<char> {
    let (from, to) = row_range(selection, row_index, row);
    if row.len() == 0 || from >= to {
        Seq::empty()
    } else {
        row_text(row.subrange(from, to))
    }
}

/// The selected text: that of each row, with line feeds between.
pub open spec fn selected_text(selection: Selection, table: Map<int, Seq<Cell>>) -> Seq<char> {
    joined_lines(
        Seq::new(
            selection.lines(),
            |k: int| row_selection(selection, table, selection.start().row + k),
        ),
    )
}

fn row_selected_text(selection: &Selection, row_index: usize, row: &[Cell]) -> (r: String)
    ensures
        r@ == selected_row_text(*selection, row_index as int, row@),
{
    if row.len() == 0 {
        return String::new();
    }
    let (from, to) = row_columns(selection, row_index, row);
    if from >= to {
        return String::new();
    }
    row_to_text(vstd::slice::slice_subrange(row, from, to))
}

/// The text that is selected in the table that `row_at` answers from.
pub fn selection_text<F>(selection: Selection, row_at: F) -> (r: String) where
    F: Fn(usize) -> Option<Vec<Cell>>,

    requires
        forall|i: usize|
            selection.start().row <= i <= selection.end().row ==> call_requires(row_at, (i,)),
    ensures
        forall|table: Map<int, Seq<Cell>>| #[trigger]
            answers(
                row_at,
                table,
                selection.start().row as int,
                selection.end().row + 1,
            ) ==> r@ == selected_text(selection, table),
{
    let (start, end) = selection.ordered();
    let ghost first = start.row as int;
    let ghost last = end.row + 1;
    let mut out: String = String::new();
    let mut i: usize = start.row;
    loop
        invariant
            first == start.row <= i <= end.row,
            last == end.row + 1,
            start == selection.start(),
            end == selection.end(),
            forall|k: usize|
                selection.start().row <= k <= selection.end().row ==> call_requires(row_at, (k,)),
            i == start.row ==> out@.len() == 0,
            forall|table: Map<int, Seq<Cell>>| #[trigger]
                answers(row_at, table, first, last) && i > start.row ==> out@ == joined_lines(
                    Seq::new(
                        (i - start.row) as nat,
                        |k: int| row_selection(selection, table, first + k),
                    ),
                ).push('\n'),
        decreases end.row - i,
    {
        let ghost before = out@;
        let row: Option<Vec<Cell>> = row_at(i);
        let text: String = match &row {
            Some(cells) => row_selected_text(&selection, i, cells.as_slice()),
            None => String::new(),
        };
        out.append(text.as_str());
        proof {
            assert forall|table: Map<int, Seq<Cell>>| #[trigger]
                answers(row_at, table, first, last) implies out@ == joined_lines(
                Seq::new(
                    (i - start.row + 1) as nat,
                    |k: int| row_selection(selection, table, first + k),
                ),
            ) by {
                assert(row_view(row) == row_of(table, i as int));
                let parts = Seq::new(
                    (i - start.row + 1) as nat,
                    |k: int| row_selection(selection, table, first + k),
                );
                assert(parts.last() == text@);
                assert(parts.drop_last() =~= Seq::new(
                    (i - start.row) as nat,
                    |k: int| row_selection(selection, table, first + k),
                ));
                if i == start.row {
                    assert(before + text@ =~= text@);
                }
            }
        }
        if i == end.row {
            return out;
        }
        out.push('\n');
        i += 1;
    }
}

// Word motions
// ------------

/// The first place from column `from` of row `row` on, and before row `total`, with what
/// is looked for.
pub open spec fn first_place(
    table: Map<int, Seq<Cell>>,
    total: int,
    row: int,
    from: int,
    mark: Mark,
) -> Option<SelectionPoint>
    decreases total - row,
{
    if row >= total {
        None
    } else {
        let found = match row_of(table, row) {
            Some(cells) => first_from(cells, from, mark),
            None => None,
        };
        match found {
            Some(col) => Some(SelectionPoint { row: row as usize, col: col as usize }),
            None => first_place(table, total, row + 1, 0, mark),
        }
    }
}

/// The last place in the rows before row `row` with what is looked for.
pub open spec fn last_place(table: Map<int, Seq<Cell>>, row: int, mark: Mark) -> Option<
    SelectionPoint,
>
    decreases row,
{
    if row <= 0 {
        None
    } else {
        let found = match row_of(table, row - 1) {
            Some(cells) => last_below(cells, cells.len() as int, mark),
            None => None,
        };
        match found {
            Some(col) => Some(SelectionPoint { row: (row - 1) as usize, col: col as usize }),
            None => last_place(table, row - 1, mark),
        }
    }
}

/// The first place behind the character at `point` with what is looked for.
pub open spec fn place_behind(
    table: Map<int, Seq<Cell>>,
    total: int,
    point: SelectionPoint,
    mark: Mark,
) -> Option<SelectionPoint> {
    first_place(
        table,
        total,
        point.row as int,
        normal_column(table[point.row as int], point.col as int) + 1,
        mark,
    )
}

/// The last place before the character at `point` with what is looked for.
pub open spec fn place_before(
    table: Map<int, Seq<Cell>>,
    point: SelectionPoint,
    mark: Mark,
) -> Option<SelectionPoint> {
    let cells = table[point.row as int];
    match last_below(cells, normal_column(cells, point.col as int), mark) {
        Some(col) => Some(SelectionPoint { row: point.row, col: col as usize }),
        None => last_place(table, point.row as int, mark),
    }
}

/// Whether there is a character at `point` in the first `total` rows of a table.
pub open spec fn has_char(table: Map<int, Seq<Cell>>, total: int, point: SelectionPoint) -> bool {
    match row_of(table, point.row as int) {
        Some(cells) => point.row < total && row_has_char(cells, point.col as int),
        None => false,
    }
}

/// Whether there is a character at a column of a row.
pub open spec fn row_has_char(cells: Seq<Cell>, col: int) -> bool {
    cells.len() > 0 && !cells[normal_column(cells, col)].wide_cont
}

/// Where a motion by words leads from `start`: to the next word start or word end behind it,
/// or to the last word start before it. Where there is none, or no character at `start`, it
/// stays there.
pub open spec fn word_target(
    table: Map<int, Seq<Cell>>,
    total: int,
    start: SelectionPoint,
    motion: WordMotion,
) -> SelectionPoint {
    let found = match motion {
        WordMotion::ForwardStart => place_behind(table, total, start, Mark::WordStart),
        WordMotion::ForwardEnd => place_behind(table, total, start, Mark::WordEnd),
        WordMotion::BackwardStart => place_before(table, start, Mark::WordStart),
    };
    match found {
        Some(place) => if has_char(table, total, start) {
            place
        } else {
            start
        },
        None => start,
    }
}

fn point_has_char<F>(point: SelectionPoint, total_rows: usize, row_at: &F) -> (r: bool) where
    F: Fn(usize) -> Option<Vec<Cell>>,

    requires
        forall|i: usize| i < total_rows ==> call_requires(*row_at, (i,)),
    ensures
        forall|table: Map<int, Seq<Cell>>| #[trigger]
            answers(*row_at, table, 0, total_rows as int) ==> r == has_char(
                table,
                total_rows as int,
                point,
            ),
        r ==> point.row < total_rows,
{
    if point.row >= total_rows {
        return false;
    }
    let row: Option<Vec<Cell>> = row_at(point.row);
    let ghost view = row_view(row);
    assert(forall|table: Map<int, Seq<Cell>>| #[trigger]
        answers(*row_at, table, 0, total_rows as int) ==> row_of(table, point.row as int) == view);
    match row {
        None => false,
        Some(cells) => {
            if cells.len() == 0 {
                return false;
            }
            let col: usize = normalize_col(cells.as_slice(), point.col);
            !cells[col].wide_cont
        },
    }
}

/// The first place behind the character at `point` with what is looked for.
fn find_behind<F>(point: SelectionPoint, total_rows: usize, row_at: &F, mark: Mark) -> (r: Option<
    SelectionPoint,
>) where F: Fn(usize) -> Option<Vec<Cell>>
    requires
        point.row < total_rows,
        forall|i: usize| i < total_rows ==> call_requires(*row_at, (i,)),
    ensures
        forall|table: Map<int, Seq<Cell>>| #[trigger]
            answers(*row_at, table, 0, total_rows as int) && table.contains_key(point.row as int)
                ==> r == place_behind(table, total_rows as int, point, mark),
        r matches Some(next) ==> next.row < total_rows,
{
    let ghost total = total_rows as int;
    let mut i: usize = point.row;
    let mut from: usize = 0;
    while i < total_rows
        invariant
            point.row <= i <= total_rows,
            total == total_rows,
            i > point.row ==> from == 0,
            forall|k: usize| k < total_rows ==> call_requires(*row_at, (k,)),
            forall|table: Map<int, Seq<Cell>>| #[trigger]
                answers(*row_at, table, 0, total) && table.contains_key(point.row as int) && i
                    > point.row ==> place_behind(table, total, point, mark) == first_place(
                    table,
                    total,
                    i as int,
                    0,
                    mark,
                ),
        decreases total_rows - i,
    {
        let row: Option<Vec<Cell>> = row_at(i);
        let ghost view = row_view(row);
        assert(forall|table: Map<int, Seq<Cell>>| #[trigger]
            answers(*row_at, table, 0, total) ==> row_of(table, i as int) == view);
        match &row {
            None => {},
            Some(cells) => {
                if i == point.row {
                    let col: usize = normalize_col(cells.as_slice(), point.col);
                    if col < cells.len() {
                        from = col + 1;
                    } else {
                        from = 1;
                    }
                }
                match find_from(cells.as_slice(), from, mark) {
                    Some(col) => {
                        return Some(SelectionPoint { row: i, col });
                    },
                    None => {},
                }
            },
        }
        i += 1;
        from = 0;
    }
    None
}

/// The last place before the character at `point` with what is looked for.
fn find_before<F>(point: SelectionPoint, total_rows: usize, row_at: &F, mark: Mark) -> (r: Option<
    SelectionPoint,
>) where F: Fn(usize) -> Option<Vec<Cell>>
    requires
        point.row < total_rows,
        forall|i: usize| i < total_rows ==> call_requires(*row_at, (i,)),
    ensures
        forall|table: Map<int, Seq<Cell>>| #[trigger]
            answers(*row_at, table, 0, total_rows as int) && table.contains_key(point.row as int)
                ==> r == place_before(table, point, mark),
        r matches Some(before) ==> before.row < total_rows,
{
    let ghost total = total_rows as int;
    let row: Option<Vec<Cell>> = row_at(point.row);
    let ghost view = row_view(row);
    assert(forall|table: Map<int, Seq<Cell>>| #[trigger]
        answers(*row_at, table, 0, total) ==> row_of(table, point.row as int) == view);
    match &row {
        None => {},
        Some(cells) => {
            let col: usize = normalize_col(cells.as_slice(), point.col);
            match find_below(cells.as_slice(), col, mark) {
                Some(before) => {
                    return Some(SelectionPoint { row: point.row, col: before });
                },
                None => {},
            }
        },
    }
    let mut i: usize = point.row;
    while i > 0
        invariant
            i <= point.row < total_rows,
            total == total_rows,
            forall|k: usize| k < total_rows ==> call_requires(*row_at, (k,)),
            forall|table: Map<int, Seq<Cell>>| #[trigger]
                answers(*row_at, table, 0, total) && table.contains_key(point.row as int)
                    ==> place_before(table, point, mark) == last_place(table, i as int, mark),
        decreases i,
    {
        let above: Option<Vec<Cell>> = row_at(i - 1);
        let ghost view = row_view(above);
        assert(forall|table: Map<int, Seq<Cell>>| #[trigger]
            answers(*row_at, table, 0, total) ==> row_of(table, i - 1) == view);
        match &above {
            None => {},
            Some(cells) => {
                match find_below(cells.as_slice(), cells.len(), mark) {
                    Some(col) => {
                        return Some(SelectionPoint { row: i - 1, col });
                    },
                    None => {},
                }
            },
        }
        i -= 1;
    }
    None
}

/// Moves by words over the first `total_rows` rows of the table that `row_at` answers
/// from. Where there is no character at `start`, or nowhere to go, it stays there.
pub fn move_word_point<F>(
    start: SelectionPoint,
    total_rows: usize,
    row_at: F,
    motion: WordMotion,
) -> (r: SelectionPoint) where F: Fn(usize) -> Option<Vec<Cell>>
    requires
        forall|i: usize| i < total_rows ==> call_requires(row_at, (i,)),
    ensures
        forall|table: Map<int, Seq<Cell>>| #[trigger]
            answers(row_at, table, 0, total_rows as int) ==> r == word_target(
                table,
                total_rows as int,
                start,
                motion,
            ),
        r == start || r.row < total_rows,
{
    if !point_has_char(start, total_rows, &row_at) {
        return start;
    }
    let found: Option<SelectionPoint> = match motion {
        WordMotion::ForwardStart => find_behind(start, total_rows, &row_at, Mark::WordStart),
        WordMotion::ForwardEnd => find_behind(start, total_rows, &row_at, Mark::WordEnd),
        WordMotion::BackwardStart => find_before(start, total_rows, &row_at, Mark::WordStart),
    };
    match found {
        Some(place) => place,
        None => start,
    }
}

// Laws
// ----

proof fn lemma_char_from(cells: Seq<Cell>, from: int)
    ensures
        match char_from(cells, from) {
            Some(col) => {
                &&& from <= col < cells.len()
                &&& !cells[col].wide_cont
                &&& forall|i: int| from <= i < col ==> (#[trigger] cells[i]).wide_cont
            },
            None => forall|i: int| from <= i < cells.len() ==> (#[trigger] cells[i]).wide_cont,
        },
    decreases cells.len() - from,
{
    if from < cells.len() {
        lemma_char_from(cells, from + 1);
    }
}

proof fn lemma_char_below(cells: Seq<Cell>, to: int)
    ensures
        match char_below(cells, to) {
            Some(col) => {
                &&& 0 <= col < to
                &&& !cells[col].wide_cont
                &&& forall|i: int| col < i < to ==> (#[trigger] cells[i]).wide_cont
            },
            None => forall|i: int| 0 <= i < to ==> (#[trigger] cells[i]).wide_cont,
        },
    decreases to,
{
    if to > 0 {
        lemma_char_below(cells, to - 1);
    }
}

proof fn lemma_first_from(cells: Seq<Cell>, from: int, mark: Mark)
    ensures
        match first_from(cells, from, mark) {
            Some(col) => {
                &&& from <= col < cells.len()
                &&& is_marked(cells, col, mark)
                &&& forall|i: int| from <= i < col ==> !#[trigger] is_marked(cells, i, mark)
            },
            None => forall|i: int|
                from <= i < cells.len() ==> !#[trigger] is_marked(cells, i, mark),
        },
    decreases cells.len() - from,
{
    if from < cells.len() {
        lemma_first_from(cells, from + 1, mark);
    }
}

proof fn lemma_last_below(cells: Seq<Cell>, to: int, mark: Mark)
    ensures
        match last_below(cells, to, mark) {
            Some(col) => {
                &&& 0 <= col < to
                &&& is_marked(cells, col, mark)
                &&& forall|i: int| col < i < to ==> !#[trigger] is_marked(cells, i, mark)
            },
            None => forall|i: int| 0 <= i < to ==> !#[trigger] is_marked(cells, i, mark),
        },
    decreases to,
{
    if to > 0 {
        lemma_last_below(cells, to - 1, mark);
    }
}

/// A selection does not depend on which of its ends is the anchor.
pub proof fn selection_has_no_direction(
    mode: SelectionMode,
    a: SelectionPoint,
    b: SelectionPoint,
    table: Map<int, Seq<Cell>>,
    row: Seq<Cell>,
    row_index: int,
)
    ensures
        ({
            let one = Selection { mode, anchor: a, cursor: b };
            let other = Selection { mode, anchor: b, cursor: a };
            &&& selected_text(one, table) == selected_text(other, table)
            &&& highlighted(row, row_index, one) == highlighted(row, row_index, other)
            &&& one.lines() == other.lines()
        }),
{
    let one = Selection { mode, anchor: a, cursor: b };
    let other = Selection { mode, anchor: b, cursor: a };
    assert(one.start() == other.start());
    assert(one.end() == other.end());
    assert forall|k: int| row_selection(one, table, k) == row_selection(other, table, k) by {}
    assert(Seq::new(one.lines(), |k: int| row_selection(one, table, one.start().row + k))
        =~= Seq::new(other.lines(), |k: int| row_selection(other, table, other.start().row + k)));
    assert(highlighted(row, row_index, one) =~= highlighted(row, row_index, other));
}

/// What is highlighted in a row of the selection is what is copied of it: the text of the
/// row's highlighted cells, without the blanks at their end.
pub proof fn highlighted_text_is_copied(selection: Selection, row_index: int, row: Seq<Cell>)
    requires
        selection.start().row <= row_index <= selection.end().row,
    ensures
        selected_row_text(selection, row_index, row) == (match selected_range(
            selection,
            row_index,
            row,
        ) {
            Some((from, to)) => row_text(row.subrange(from, to)),
            None => Seq::empty(),
        }),
{
}

/// Highlighting changes styles only.
pub proof fn highlighting_keeps_text(row: Seq<Cell>, row_index: int, selection: Selection)
    ensures
        highlighted(row, row_index, selection).len() == row.len(),
        forall|i: int|
            0 <= i < row.len() ==> {
                &&& (#[trigger] highlighted(row, row_index, selection)[i]).ch == row[i].ch
                &&& highlighted(row, row_index, selection)[i].wide_cont == row[i].wide_cont
            },
{
}

/// The column of a character is its own column, and never beyond the column asked about.
pub proof fn normal_column_settles(row: Seq<Cell>, col: int)
    requires
        0 <= col,
    ensures
        0 <= normal_column(row, col) <= col,
        normal_column(row, normal_column(row, col)) == normal_column(row, col),
        normal_column(row, col) < row.len() || normal_column(row, col) == 0,
{
    let to = if col < row.len() {
        col + 1
    } else {
        row.len() as int
    };
    lemma_char_below(row, to);
    let normal = normal_column(row, col);
    let again = if normal < row.len() {
        normal + 1
    } else {
        row.len() as int
    };
    lemma_char_below(row, again);
}

/// Stepping back undoes stepping forward, wherever there is a character to step to.
pub proof fn stepping_back_undoes_stepping_forward(row: Seq<Cell>, col: int)
    requires
        0 <= col,
        row.len() > 0,
        column_behind(row, col) > normal_column(row, col),
    ensures
        normal_column(row, col) < column_behind(row, col) < row.len(),
        column_before(row, column_behind(row, col)) == normal_column(row, col),
{
    normal_column_settles(row, col);
    let normal = normal_column(row, col);
    let next = column_behind(row, col);
    lemma_char_from(row, normal + 1);
    lemma_char_below(row, row.len() as int);
    assert(char_from(row, normal + 1) is Some);
    let to = if col < row.len() {
        col + 1
    } else {
        row.len() as int
    };
    lemma_char_below(row, to);
    lemma_char_below(row, next + 1);
    assert(normal_column(row, next) == next);
    lemma_char_below(row, next);
}

/// Whether what is looked for is at a place in the first `total` rows of a table.
pub open spec fn marked_at(
    table: Map<int, Seq<Cell>>,
    total: int,
    place: SelectionPoint,
    mark: Mark,
) -> bool {
    &&& place.row < total
    &&& table.contains_key(place.row as int)
    &&& place.col < table[place.row as int].len()
    &&& is_marked(table[place.row as int], place.col as int, mark)
}

/// Whether the rows of a table are short enough to be held in memory.
pub open spec fn rows_fit(table: Map<int, Seq<Cell>>) -> bool {
    forall|i: int| #[trigger] table.contains_key(i) ==> table[i].len() <= usize::MAX
}

/// The place of the character at a place.
pub open spec fn char_place(table: Map<int, Seq<Cell>>, place: SelectionPoint) -> SelectionPoint {
    SelectionPoint {
        row: place.row,
        col: normal_column(table[place.row as int], place.col as int) as usize,
    }
}

/// Whether `target` is the first place behind the character at `start` with what is looked
/// for, or `start` itself where there is none, or no character at `start`.
pub open spec fn leads_behind(
    table: Map<int, Seq<Cell>>,
    total: int,
    start: SelectionPoint,
    mark: Mark,
    target: SelectionPoint,
) -> bool {
    let from = char_place(table, start);
    let none = forall|other: SelectionPoint| #[trigger]
        marked_at(table, total, other, mark) ==> not_after(other, from);
    if none || !has_char(table, total, start) {
        target == start
    } else {
        &&& marked_at(table, total, target, mark)
        &&& !not_after(target, from)
        &&& forall|other: SelectionPoint| #[trigger]
            marked_at(table, total, other, mark) && !not_after(other, from) ==> not_after(
                target,
                other,
            )
    }
}

/// Whether `target` is the last place before the character at `start` with what is looked
/// for, or `start` itself where there is none, or no character at `start`.
pub open spec fn leads_before(
    table: Map<int, Seq<Cell>>,
    total: int,
    start: SelectionPoint,
    mark: Mark,
    target: SelectionPoint,
) -> bool {
    let from = char_place(table, start);
    let none = forall|other: SelectionPoint| #[trigger]
        marked_at(table, total, other, mark) ==> not_after(from, other);
    if none || !has_char(table, total, start) {
        target == start
    } else {
        &&& marked_at(table, total, target, mark)
        &&& !not_after(from, target)
        &&& forall|other: SelectionPoint| #[trigger]
            marked_at(table, total, other, mark) && !not_after(from, other) ==> not_after(
                other,
                target,
            )
    }
}

proof fn lemma_first_place(
    table: Map<int, Seq<Cell>>,
    total: int,
    row: int,
    from: int,
    mark: Mark,
)
    requires
        0 <= row,
        0 <= from,
        total <= usize::MAX,
        rows_fit(table),
    ensures
        match first_place(table, total, row, from, mark) {
            Some(place) => {
                &&& marked_at(table, total, place, mark)
                &&& place.row > row || (place.row == row && place.col >= from)
                &&& forall|other: SelectionPoint| #[trigger]
                    marked_at(table, total, other, mark) && (other.row > row || (other.row == row
                        && other.col >= from)) ==> not_after(place, other)
            },
            None => forall|other: SelectionPoint| #[trigger]
                marked_at(table, total, other, mark) ==> !(other.row > row || (other.row == row
                    && other.col >= from)),
        },
    decreases total - row,
{
    if row < total {
        lemma_first_place(table, total, row + 1, 0, mark);
        if table.contains_key(row) {
            lemma_first_from(table[row], from, mark);
        }
    }
}

proof fn lemma_last_place(table: Map<int, Seq<Cell>>, total: int, row: int, mark: Mark)
    requires
        row <= total <= usize::MAX,
        rows_fit(table),
    ensures
        match last_place(table, row, mark) {
            Some(place) => {
                &&& marked_at(table, total, place, mark)
                &&& place.row < row
                &&& forall|other: SelectionPoint| #[trigger]
                    marked_at(table, total, other, mark) && other.row < row ==> not_after(
                        other,
                        place,
                    )
            },
            None => forall|other: SelectionPoint| #[trigger]
                marked_at(table, total, other, mark) ==> other.row >= row,
        },
    decreases row,
{
    if row > 0 {
        lemma_last_place(table, total, row - 1, mark);
        if table.contains_key(row - 1) {
            lemma_last_below(table[row - 1], table[row - 1].len() as int, mark);
        }
    }
}

proof fn lemma_place_behind(
    table: Map<int, Seq<Cell>>,
    total: int,
    start: SelectionPoint,
    mark: Mark,
)
    requires
        total <= usize::MAX,
        rows_fit(table),
    ensures
        ({
            let from = char_place(table, start);
            match place_behind(table, total, start, mark) {
                Some(place) => {
                    &&& marked_at(table, total, place, mark)
                    &&& !not_after(place, from)
                    &&& forall|other: SelectionPoint| #[trigger]
                        marked_at(table, total, other, mark) && !not_after(other, from)
                            ==> not_after(place, other)
                },
                None => forall|other: SelectionPoint| #[trigger]
                    marked_at(table, total, other, mark) ==> not_after(other, from),
            }
        }),
{
    let cells = table[start.row as int];
    normal_column_settles(cells, start.col as int);
    lemma_first_place(
        table,
        total,
        start.row as int,
        normal_column(cells, start.col as int) + 1,
        mark,
    );
}

/// Going to the start of the next word leads to the first word start behind the character,
/// and nowhere only if there is none.
pub proof fn next_word_start_is_the_nearest(
    table: Map<int, Seq<Cell>>,
    total: int,
    start: SelectionPoint,
)
    requires
        total <= usize::MAX,
        rows_fit(table),
    ensures
        leads_behind(
            table,
            total,
            start,
            Mark::WordStart,
            word_target(table, total, start, WordMotion::ForwardStart),
        ),
{
    lemma_place_behind(table, total, start, Mark::WordStart);
}

/// Going to the end of a word leads to the first word end behind the character, and nowhere
/// only if there is none.
pub proof fn next_word_end_is_the_nearest(
    table: Map<int, Seq<Cell>>,
    total: int,
    start: SelectionPoint,
)
    requires
        total <= usize::MAX,
        rows_fit(table),
    ensures
        leads_behind(
            table,
            total,
            start,
            Mark::WordEnd,
            word_target(table, total, start, WordMotion::ForwardEnd),
        ),
{
    lemma_place_behind(table, total, start, Mark::WordEnd);
}

proof fn lemma_place_before(
    table: Map<int, Seq<Cell>>,
    total: int,
    start: SelectionPoint,
    mark: Mark,
)
    requires
        total <= usize::MAX,
        rows_fit(table),
        has_char(table, total, start),
    ensures
        ({
            let from = char_place(table, start);
            match place_before(table, start, mark) {
                Some(place) => {
                    &&& marked_at(table, total, place, mark)
                    &&& !not_after(from, place)
                    &&& forall|other: SelectionPoint| #[trigger]
                        marked_at(table, total, other, mark) && !not_after(from, other)
                            ==> not_after(other, place)
                },
                None => forall|other: SelectionPoint| #[trigger]
                    marked_at(table, total, other, mark) ==> not_after(from, other),
            }
        }),
{
    let cells = table[start.row as int];
    let from = char_place(table, start);
    normal_column_settles(cells, start.col as int);
    lemma_last_below(cells, from.col as int, mark);
    lemma_last_place(table, total, start.row as int, mark);
    match last_below(cells, from.col as int, mark) {
        Some(col) => {
            let place = SelectionPoint { row: start.row, col: col as usize };
            assert(place_before(table, start, mark) == Some(place));
            assert forall|other: SelectionPoint| #[trigger]
                marked_at(table, total, other, mark) && !not_after(from, other) implies not_after(
                other,
                place,
            ) by {
                if other.row == start.row {
                    assert(is_marked(cells, other.col as int, mark));
                }
            }
        },
        None => {
            assert forall|other: SelectionPoint| #[trigger]
                marked_at(table, total, other, mark) && !not_after(from, other) implies other.row
                < start.row by {
                if other.row == start.row {
                    assert(is_marked(cells, other.col as int, mark));
                }
            }
        },
    }
}

/// Going back to the start of a word leads to the last word start before the character, and
/// nowhere only if there is none.
pub proof fn previous_word_start_is_the_nearest(
    table: Map<int, Seq<Cell>>,
    total: int,
    start: SelectionPoint,
)
    requires
        total <= usize::MAX,
        rows_fit(table),
    ensures
        leads_before(
            table,
            total,
            start,
            Mark::WordStart,
            word_target(table, total, start, WordMotion::BackwardStart),
        ),
{
    if has_char(table, total, start) {
        lemma_place_before(table, total, start, Mark::WordStart);
    }
}

/// Whether a character is a letter, a digit or an underscore, and no white space.
pub open spec fn is_word_char(ch: char) -> bool {
    if (ch as u32) < 0x80 {
        ||| 'a' <= ch <= 'z'
        ||| 'A' <= ch <= 'Z'
        ||| '0' <= ch <= '9'
        ||| ch == '_'
    } else {
        unicode_alphanumeric(ch) && !white_space(ch)
    }
}

/// Whether two neighbouring characters belong to one word: both are letters, digits or
/// underscores, or neither is, and there is no white space between words.
pub open spec fn same_word(a: char, b: char) -> bool {
    !white_space(a) && !white_space(b) && is_word_char(a) == is_word_char(b)
}

/// Whether `before` and `col` are the columns of two characters that stand side by side.
pub open spec fn adjacent(cells: Seq<Cell>, before: int, col: int) -> bool {
    &&& 0 <= before < col < cells.len()
    &&& !cells[before].wide_cont
    &&& !cells[col].wide_cont
    &&& forall|i: int| before < i < col ==> (#[trigger] cells[i]).wide_cont
}

/// Words are the longest runs of letters, digits and underscores, and the longest runs of
/// other characters than these and white space: of two neighbours in one word, neither ends
/// it or starts it there; of other neighbours, each that is no white space does. The first
/// character of a row and the last one start and end a word, unless they are white space.
pub proof fn words_are_runs(cells: Seq<Cell>, before: int, col: int)
    requires
        adjacent(cells, before, col),
    ensures
        starts_word(cells, col) == (!white_space(cells[col].ch) && !same_word(
            cells[before].ch,
            cells[col].ch,
        )),
        ends_word(cells, before) == (!white_space(cells[before].ch) && !same_word(
            cells[before].ch,
            cells[col].ch,
        )),
        (forall|i: int| 0 <= i < before ==> (#[trigger] cells[i]).wide_cont) ==> starts_word(
            cells,
            before,
        ) == !white_space(cells[before].ch),
        (forall|i: int| col < i < cells.len() ==> (#[trigger] cells[i]).wide_cont) ==> ends_word(
            cells,
            col,
        ) == !white_space(cells[col].ch),
{
    lemma_char_below(cells, col);
    lemma_char_from(cells, before + 1);
    assert(char_below(cells, col) == Some(before));
    assert(char_from(cells, before + 1) == Some(col));
    lemma_char_below(cells, before);
    lemma_char_from(cells, col + 1);
}

proof fn lemma_no_start_from(cells: Seq<Cell>, from: int)
    requires
        1 <= from,
        forall|i: int|
            0 <= i < cells.len() ==> !(#[trigger] cells[i]).wide_cont && is_word_char(cells[i].ch),
    ensures
        first_from(cells, from, Mark::WordStart) is None,
    decreases cells.len() - from,
{
    if from < cells.len() {
        assert(is_word_char(cells[from - 1].ch) && is_word_char(cells[from].ch));
        words_are_runs(cells, from - 1, from);
        lemma_no_start_from(cells, from + 1);
    }
}

/// A row of letters, digits and underscores is one word: the next word start is not in it.
pub proof fn letters_digits_and_underscores_make_one_word(
    table: Map<int, Seq<Cell>>,
    start: SelectionPoint,
)
    requires
        table.contains_key(start.row as int),
        start.col < table[start.row as int].len(),
        forall|i: int|
            0 <= i < table[start.row as int].len() ==> {
                &&& !(#[trigger] table[start.row as int][i]).wide_cont
                &&& is_word_char(table[start.row as int][i].ch)
            },
    ensures
        word_target(table, start.row + 1, start, WordMotion::ForwardStart) == start,
{
    let cells = table[start.row as int];
    lemma_char_below(cells, start.col + 1);
    assert(!cells[start.col as int].wide_cont);
    assert(normal_column(cells, start.col as int) == start.col);
    lemma_no_start_from(cells, start.col + 1);
    assert(first_place(table, start.row + 1, start.row + 1, 0, Mark::WordStart) is None);
}

/// Whether wide characters take up two cells: a continuation has a character before it.
pub open spec fn row_is_whole(row: Seq<Cell>) -> bool {
    &&& row.len() > 0 ==> !row[0].wide_cont
    &&& forall|i: int, j: int|
        0 <= i && j == i + 1 && j < row.len() ==> !((#[trigger] row[i]).wide_cont && (
        #[trigger] row[j]).wide_cont)
}

/// The column of the character that a cell is part of; beyond the end, of the last one.
pub open spec fn home(row: Seq<Cell>, col: int) -> int {
    let at = if col < row.len() {
        col
    } else {
        row.len() - 1
    };
    if row[at].wide_cont {
        at - 1
    } else {
        at
    }
}

/// Whether the cell at a column of a row lies in a selection: between the two ends in the
/// order of places, both with all of their characters.
pub open spec fn is_selected(selection: Selection, row_index: int, row: Seq<Cell>, col: int) -> bool {
    let (first, second) = if selection.anchor.row < selection.cursor.row || (selection.anchor.row
        == selection.cursor.row && selection.anchor.col < selection.cursor.col) {
        (selection.anchor, selection.cursor)
    } else {
        (selection.cursor, selection.anchor)
    };
    &&& first.row <= row_index <= second.row
    &&& selection.mode == SelectionMode::Character ==> {
        &&& row_index == first.row ==> home(row, first.col as int) <= home(row, col)
        &&& row_index == second.row ==> home(row, col) <= home(row, second.col as int)
    }
}

pub(crate) proof fn lemma_home(row: Seq<Cell>, col: int)
    requires
        row_is_whole(row),
        row.len() > 0,
        0 <= col,
    ensures
        normal_column(row, col) == home(row, col),
        0 <= home(row, col) < row.len(),
{
    let to = if col < row.len() {
        col + 1
    } else {
        row.len() as int
    };
    assert(row[to - 1].wide_cont ==> !row[to - 2].wide_cont);
    lemma_char_below(row, to);
}

/// The cells that are highlighted are those that lie in the selection, and all of them.
pub proof fn cells_between_the_ends_are_highlighted(
    selection: Selection,
    row_index: int,
    row: Seq<Cell>,
    col: int,
)
    requires
        row_is_whole(row),
        0 <= col < row.len(),
    ensures
        highlighted(row, row_index, selection)[col] == (if is_selected(
            selection,
            row_index,
            row,
            col,
        ) {
            Cell {
                style: Style {
                    fg: row[col].style.fg,
                    bg: Some(238),
                    bold: row[col].style.bold,
                    dim: false,
                    reverse: false,
                },
                ..row[col]
            }
        } else {
            row[col]
        }),
{
    if selection.start().row <= row_index <= selection.end().row {
        lemma_in_range(selection, row_index, row, col);
    }
}

proof fn lemma_in_range(selection: Selection, row_index: int, row: Seq<Cell>, col: int)
    requires
        row_is_whole(row),
        0 <= col < row.len(),
        selection.start().row <= row_index <= selection.end().row,
    ensures
        ({
            let (from, to) = row_range(selection, row_index, row);
            &&& 0 <= from
            &&& to <= row.len()
            &&& from <= col < to <==> is_selected(selection, row_index, row, col)
        }),
{
    lemma_home(row, col);
    lemma_home(row, selection.anchor.col as int);
    lemma_home(row, selection.cursor.col as int);
    if col + 1 < row.len() {
        assert(row[col + 1].wide_cont ==> !row[col].wide_cont);
    }
    assert(row[col].wide_cont ==> !row[col - 1].wide_cont);
}

/// What is copied of a row is the text of the cells that lie in the selection, without the
/// blanks at their end.
pub proof fn cells_between_the_ends_are_copied(
    selection: Selection,
    row_index: int,
    row: Seq<Cell>,
    from: int,
    to: int,
)
    requires
        row_is_whole(row),
        0 <= from <= to <= row.len(),
        selection.anchor.row <= row_index <= selection.cursor.row || selection.cursor.row
            <= row_index <= selection.anchor.row,
        forall|col: int|
            0 <= col < row.len() ==> (from <= col < to <==> #[trigger] is_selected(
                selection,
                row_index,
                row,
                col,
            )),
    ensures
        selected_row_text(selection, row_index, row) == row_text(row.subrange(from, to)),
{
    if row.len() > 0 {
        lemma_home(row, selection.anchor.col as int);
        lemma_home(row, selection.cursor.col as int);
        let (a, b) = row_range(selection, row_index, row);
        if from < to {
            lemma_in_range(selection, row_index, row, from);
            lemma_in_range(selection, row_index, row, to - 1);
            assert(is_selected(selection, row_index, row, from));
            assert(is_selected(selection, row_index, row, to - 1));
        }
        if a < b {
            lemma_in_range(selection, row_index, row, a);
            lemma_in_range(selection, row_index, row, b - 1);
            assert(is_selected(selection, row_index, row, a));
            assert(is_selected(selection, row_index, row, b - 1));
        } else {
            assert(row.subrange(from, to) =~= Seq::<Cell>::empty());
            assert(row_text(Seq::<Cell>::empty()) =~= Seq::<char>::empty());
        }
    } else {
        assert(row.subrange(from, to) =~= Seq::<Cell>::empty());
        assert(row_text(Seq::<Cell>::empty()) =~= Seq::<char>::empty());
    }
}

proof fn lemma_joined(first: Seq<Seq<char>>, second: Seq<Seq<char>>)
    requires
        first.len() > 0,
        second.len() > 0,
    ensures
        joined_lines(first + second) == joined_lines(first).push('\n') + joined_lines(second),
    decreases second.len(),
{
    let all = first + second;
    assert(all.drop_last() =~= first + second.drop_last());
    assert(all.last() == second.last());
    if second.len() == 1 {
        assert(all.drop_last() =~= first);
    } else {
        lemma_joined(first, second.drop_last());
        assert(joined_lines(all) =~= joined_lines(first).push('\n') + joined_lines(second));
    }
}

/// A selection in one row copies what is selected in that row.
pub proof fn one_row_is_copied(selection: Selection, table: Map<int, Seq<Cell>>)
    requires
        selection.anchor.row == selection.cursor.row,
    ensures
        ({
            let row = selection.anchor.row as int;
            selected_text(selection, table) == (if table.contains_key(row) {
                selected_row_text(selection, row, table[row])
            } else {
                Seq::empty()
            })
        }),
{
    let parts = Seq::new(
        selection.lines(),
        |k: int| row_selection(selection, table, selection.start().row + k),
    );
    assert(parts.len() == 1);
    assert(joined_lines(parts) == parts[0]);
}

proof fn lemma_runs_to_the_end(row: Seq<Cell>)
    requires
        row_is_whole(row),
    ensures
        row.len() <= usize::MAX ==> end_column(row, usize::MAX as int) == row.len(),
{
    if 0 < row.len() <= usize::MAX {
        let last = row.len() - 1;
        lemma_home(row, usize::MAX as int);
        if row[last].wide_cont {
            assert(!row[last - 1].wide_cont);
        }
    }
}

/// A selection of several rows copies what its part down to some row copies, then a line
/// feed, then what the rest copies. The part ends with that row, and the rest begins with
/// the next one.
pub proof fn rows_are_copied_in_order(
    mode: SelectionMode,
    first: SelectionPoint,
    second: SelectionPoint,
    table: Map<int, Seq<Cell>>,
    row: usize,
)
    requires
        first.row <= row < second.row,
        table.contains_key(row as int) ==> row_is_whole(table[row as int])
            && table[row as int].len() <= usize::MAX,
    ensures
        ({
            let break_at = SelectionPoint { row, col: usize::MAX };
            let next = SelectionPoint { row: (row + 1) as usize, col: 0 };
            let upper = Selection { mode, anchor: first, cursor: break_at };
            let lower = Selection { mode, anchor: next, cursor: second };
            selected_text(Selection { mode, anchor: first, cursor: second }, table)
                == selected_text(upper, table) + seq!['\n'] + selected_text(lower, table)
        }),
{
    let whole = Selection { mode, anchor: first, cursor: second };
    let upper = Selection { mode, anchor: first, cursor: SelectionPoint { row, col: usize::MAX } };
    let lower = Selection {
        mode,
        anchor: SelectionPoint { row: (row + 1) as usize, col: 0 },
        cursor: second,
    };
    let all = Seq::new(whole.lines(), |k: int| row_selection(whole, table, whole.start().row + k));
    let above = Seq::new(
        upper.lines(),
        |k: int| row_selection(upper, table, upper.start().row + k),
    );
    let below = Seq::new(
        lower.lines(),
        |k: int| row_selection(lower, table, lower.start().row + k),
    );
    assert forall|k: int| 0 <= k < above.len() implies all[k] == above[k] by {
        let cells = table[first.row + k];
        if first.row + k == row && table.contains_key(row as int) {
            lemma_runs_to_the_end(cells);
        }
    }
    assert forall|k: int| 0 <= k < below.len() implies all[above.len() + k] == below[k] by {
        let cells = table[row + 1 + k];
        if k == 0 && cells.len() > 0 {
            lemma_char_below(cells, 1);
        }
    }
    assert(all =~= above + below);
    lemma_joined(above, below);
    assert(joined_lines(above).push('\n') + joined_lines(below) =~= joined_lines(above)
        + seq!['\n'] + joined_lines(below));
}

/// The next column is that of the nearest character to the right, and the previous one that
/// of the nearest character to the left; where there is none, the last or the first column
/// of the row that holds a character. The same holds of the first and the last column.
pub proof fn columns_are_the_nearest(row: Seq<Cell>, col: int)
    requires
        row_is_whole(row),
        0 <= col < row.len(),
    ensures
        ({
            let at = home(row, col);
            let next = column_behind(row, col);
            let previous = column_before(row, col);
            &&& 0 <= next < row.len() && !row[next].wide_cont
            &&& 0 <= previous < row.len() && !row[previous].wide_cont
            &&& forall|i: int|
                at < i < row.len() && !(#[trigger] row[i]).wide_cont ==> at < next <= i
            &&& forall|i: int|
                0 <= i < at && !(#[trigger] row[i]).wide_cont ==> i <= previous < at
            &&& at <= next
            &&& previous <= at
        }),
        last_column(row) == home(row, row.len() - 1),
        forall|i: int|
            0 <= i < row.len() && !(#[trigger] row[i]).wide_cont && row[i].ch != ' ' ==> {
                &&& first_column(row) <= i
                &&& row[first_column(row)].ch != ' '
                &&& !row[first_column(row)].wide_cont
            },
        (forall|i: int|
            0 <= i < row.len() && !(#[trigger] row[i]).wide_cont ==> row[i].ch == ' ')
            ==> first_column(row) == 0,
{
    let at = home(row, col);
    lemma_home(row, col);
    lemma_char_from(row, at + 1);
    lemma_char_below(row, at);
    lemma_char_below(row, row.len() as int);
    lemma_home(row, row.len() - 1);
    assert(row[row.len() - 1].wide_cont ==> !row[row.len() - 2].wide_cont);
    assert(!row[0].wide_cont);
    lemma_first_from(row, 0, Mark::Filled);
    lemma_char_from(row, 0);
    assert forall|i: int|
        0 <= i < row.len() && !(#[trigger] row[i]).wide_cont && row[i].ch != ' ' implies {
        &&& first_column(row) <= i
        &&& row[first_column(row)].ch != ' '
        &&& !row[first_column(row)].wide_cont
    } by {
        assert(is_marked(row, i, Mark::Filled));
    }
}

} // verus!
