//! Screen cells, and rows of them.

use crate::text::control;
use unicode_width::UnicodeWidthChar;
use vstd::prelude::*;

verus! {

/// How a character is shown.
#[derive(Debug, Clone, Copy, PartialEq, Eq, Hash, Structural)]
pub struct Style {
    /// Foreground colour in the 256-colour palette; the terminal's own if absent.
    pub fg: Option<u8>,
    /// Background colour in the 256-colour palette; the terminal's own if absent.
    pub bg: Option<u8>,
    pub bold: bool,
    pub dim: bool,
    pub reverse: bool,
}

/// The style without colours or attributes.
pub open spec fn plain_style() -> Style {
    Style { fg: None, bg: None, bold: false, dim: false, reverse: false }
}

impl Default for Style {
    /// The style without colours or attributes.
    fn default() -> (r: Self)
        ensures
            r == plain_style(),
    {
        Style { fg: None, bg: None, bold: false, dim: false, reverse: false }
    }
}

/// One position on a screen. A wide character is followed by a continuation cell.
#[derive(Debug, Clone, Copy, PartialEq, Eq, Structural)]
pub struct Cell {
    pub ch: char,
    pub style: Style,
    /// Whether the cell is covered by the wide character before it.
    pub wide_cont: bool,
}

/// A blank in the given style.
pub open spec fn blank_cell(style: Style) -> Cell {
    Cell { ch: ' ', style, wide_cont: false }
}

impl Cell {
    /// A blank in the given style.
    pub fn blank(style: Style) -> (r: Self)
        ensures
            r == blank_cell(style),
    {
        Cell { ch: ' ', style, wide_cont: false }
    }
}

/// The views of some rows.
pub open spec fn grid(rows: Seq<Vec<Cell>>) -> Seq<Seq<Cell>> {
    Seq::new(rows.len(), |i: int| rows[i]@)
}

// Widths
// ------

/// The number of columns that `UnicodeWidthChar::width` gives a character; `None` for
/// control characters.
pub uninterp spec fn unicode_width(ch: char) -> Option<usize>;

/// Calls `UnicodeWidthChar::width`: the display width of a character by the Unicode
/// tables. Control characters have none, printable ASCII characters one column, and no
/// character more than three.
#[verifier::external_body]
fn lookup_width(ch: char) -> (r: Option<usize>)
    ensures
        r == unicode_width(ch),
        r is None <==> control(ch),
        is_printable_ascii(ch) ==> r == Some(1usize),
        r matches Some(w) ==> w <= 3,
{
    UnicodeWidthChar::width(ch)
}

/// Whether `ch` is a printable ASCII character.
pub open spec fn is_printable_ascii(ch: char) -> bool {
    0x20 <= (ch as u32) < 0x7f
}

/// The number of columns a character takes up: none for control characters, one for
/// printable ASCII characters, and for others what the Unicode tables say.
pub open spec fn width_of(ch: char) -> nat {
    if control(ch) {
        0
    } else if is_printable_ascii(ch) {
        1
    } else {
        unicode_width(ch)->0 as nat
    }
}

/// The number of columns of a cell's own character, at least one.
pub open spec fn cell_columns(ch: char) -> nat {
    if width_of(ch) == 0 {
        1
    } else {
        width_of(ch)
    }
}

/// The number of columns a character takes up; none for control characters.
pub fn char_width(ch: char) -> (r: usize)
    ensures
        r == width_of(ch),
        r <= 3,
{
    match lookup_width(ch) {
        Some(w) => w,
        None => 0,
    }
}

/// The number of columns of a cell's own character, at least one.
pub fn columns_of(ch: char) -> (r: usize)
    ensures
        r == cell_columns(ch),
        1 <= r <= 3,
{
    let w: usize = char_width(ch);
    if w == 0 {
        1
    } else {
        w
    }
}

// Rows
// ----

/// Whether a cell is an uncovered blank character, whatever its style.
pub open spec fn is_blank(cell: Cell) -> bool {
    !cell.wide_cont && cell.ch == ' '
}

/// A row without the blanks at its end.
pub open spec fn trimmed_row(row: Seq<Cell>) -> Seq<Cell>
    decreases row.len(),
{
    if row.len() > 0 && is_blank(row.last()) {
        trimmed_row(row.drop_last())
    } else {
        row
    }
}

/// Each row without the blanks at its end.
pub open spec fn trimmed_rows(rows: Seq<Seq<Cell>>) -> Seq<Seq<Cell>> {
    Seq::new(rows.len(), |i: int| trimmed_row(rows[i]))
}

/// The row without the blanks at its end.
pub fn trim_row(row: &[Cell]) -> (r: Vec<Cell>)
    ensures
        r@ == trimmed_row(row@),
{
    let mut end: usize = row.len();
    assert(row@.take(end as int) =~= row@);
    while end > 0
        invariant_except_break
            end <= row@.len(),
            trimmed_row(row@) == trimmed_row(row@.take(end as int)),
        ensures
            end <= row@.len(),
            trimmed_row(row@) == row@.take(end as int),
        decreases end,
    {
        let cell: Cell = row[end - 1];
        if cell.wide_cont || cell.ch != ' ' {
            break;
        }
        assert(row@.take(end as int).drop_last() =~= row@.take(end - 1));
        end -= 1;
    }
    let out: Vec<Cell> = vstd::slice::slice_to_vec(vstd::slice::slice_subrange(row, 0, end));
    assert(out@ =~= row@.take(end as int));
    out
}

/// The characters of the cells that are not continuations.
pub open spec fn cell_text(cells: Seq<Cell>) -> Seq<char>
    decreases cells.len(),
{
    if cells.len() == 0 {
        Seq::empty()
    } else if cells.last().wide_cont {
        cell_text(cells.drop_last())
    } else {
        cell_text(cells.drop_last()).push(cells.last().ch)
    }
}

/// The text of a row, without the blanks at its end.
pub open spec fn row_text(row: Seq<Cell>) -> Seq<char> {
    cell_text(trimmed_row(row))
}

/// The text of each row.
pub open spec fn rows_text(rows: Seq<Seq<Cell>>) -> Seq<Seq<char>> {
    Seq::new(rows.len(), |i: int| row_text(rows[i]))
}

/// The text of a row, without the blanks at its end.
pub fn row_to_text(row: &[Cell]) -> (r: String)
    ensures
        r@ == row_text(row@),
{
    let kept: Vec<Cell> = trim_row(row);
    let mut out: String = String::new();
    let mut i: usize = 0;
    while i < kept.len()
        invariant
            i <= kept@.len(),
            out@ == cell_text(kept@.take(i as int)),
        decreases kept@.len() - i,
    {
        assert(kept@.take(i + 1).drop_last() =~= kept@.take(i as int));
        if !kept[i].wide_cont {
            out.push(kept[i].ch);
        }
        i += 1;
    }
    assert(kept@.take(i as int) =~= kept@);
    out
}

/// A row cut or filled up to `cols` cells. A wide character that no longer has room
/// for its second half, and a half without its wide character, become a blank.
pub open spec fn fitted_row(row: Seq<Cell>, cols: nat, style: Style) -> Seq<Cell> {
    let cut = Seq::new(cols, |i: int| if i < row.len() { row[i] } else { blank_cell(style) });
    if cols > 0 && (cut.last().wide_cont || width_of(cut.last().ch) > 1) {
        cut.update(cols - 1, blank_cell(style))
    } else {
        cut
    }
}

/// Cuts a row or fills it up to `cols` cells.
pub fn normalize_row_width(row: &mut Vec<Cell>, cols: usize, blank_style: Style)
    ensures
        final(row)@ == fitted_row(old(row)@, cols as nat, blank_style),
{
    let ghost before = row@;
    if row.len() > cols {
        row.truncate(cols);
    } else {
        while row.len() < cols
            invariant
                before.len() <= row@.len() <= cols,
                forall|i: int|
                    0 <= i < row@.len() ==> row@[i] == (if i < before.len() {
                        before[i]
                    } else {
                        blank_cell(blank_style)
                    }),
            decreases cols - row@.len(),
        {
            row.push(Cell::blank(blank_style));
        }
    }
    let ghost cut = Seq::new(
        cols as nat,
        |i: int| if i < before.len() { before[i] } else { blank_cell(blank_style) },
    );
    assert(row@ =~= cut);
    if row.len() == 0 {
        return;
    }
    let last_idx: usize = row.len() - 1;
    let last: Cell = row[last_idx];
    if last.wide_cont || char_width(last.ch) > 1 {
        row.set(last_idx, Cell::blank(blank_style));
    }
}

// Wrapping
// --------

/// The state of wrapping a line: the finished segments, the open one, and the columns
/// the open one takes up.
pub struct Wrapping {
    pub done: Seq<Seq<Cell>>,
    pub open: Seq<Cell>,
    pub used: nat,
}

/// Wraps one more cell: continuation cells are left out, a cell that does not fit opens
/// a new segment, and a full segment is finished.
pub open spec fn wrap_cell(w: Wrapping, cell: Cell, width: nat) -> Wrapping {
    let columns = cell_columns(cell.ch);
    if cell.wide_cont {
        w
    } else if w.used > 0 && w.used + columns > width {
        Wrapping { done: w.done.push(w.open), open: seq![cell], used: columns }
    } else if w.used + columns >= width {
        Wrapping { done: w.done.push(w.open.push(cell)), open: Seq::empty(), used: 0 }
    } else {
        Wrapping { done: w.done, open: w.open.push(cell), used: w.used + columns }
    }
}

/// Wraps cells one after another.
pub open spec fn wrap_cells(cells: Seq<Cell>, width: nat) -> Wrapping
    decreases cells.len(),
{
    if cells.len() == 0 {
        Wrapping { done: Seq::empty(), open: Seq::empty(), used: 0 }
    } else {
        wrap_cell(wrap_cells(cells.drop_last(), width), cells.last(), width)
    }
}

/// The segments of a line, trimmed and wrapped to `width` columns (at least one). There
/// is always a segment, an empty one for a blank line.
pub open spec fn wrapped(line: Seq<Cell>, width: nat) -> Seq<Seq<Cell>> {
    let w = wrap_cells(
        trimmed_row(line),
        if width == 0 {
            1
        } else {
            width
        },
    );
    if w.open.len() > 0 || w.done.len() == 0 {
        w.done.push(w.open)
    } else {
        w.done
    }
}

/// Wraps a line to `width` columns (at least one), leaving out the blanks at its end
/// and the continuation cells.
pub fn wrap_styled_line(line: &[Cell], width: usize) -> (r: Vec<Vec<Cell>>)
    ensures
        grid(r@) == wrapped(line@, width as nat),
        r@.len() > 0,
{
    let width: usize = if width == 0 {
        1
    } else {
        width
    };
    let kept: Vec<Cell> = trim_row(line);
    let mut out: Vec<Vec<Cell>> = Vec::new();
    let mut buf: Vec<Cell> = Vec::new();
    let mut used: usize = 0;
    let mut i: usize = 0;
    assert(grid(out@) =~= wrap_cells(kept@.take(0), width as nat).done);
    assert(buf@ =~= wrap_cells(kept@.take(0), width as nat).open);
    while i < kept.len()
        invariant
            i <= kept@.len(),
            width >= 1,
            used < width || used <= 3,
            used > 0 <==> buf@.len() > 0,
            ({
                let w = wrap_cells(kept@.take(i as int), width as nat);
                &&& grid(out@) == w.done
                &&& buf@ == w.open
                &&& used == w.used
            }),
        decreases kept@.len() - i,
    {
        let cell: Cell = kept[i];
        let ghost done = grid(out@);
        proof {
            assert(kept@.take(i + 1).drop_last() =~= kept@.take(i as int));
            assert(kept@.take(i + 1).last() == cell);
        }
        i += 1;
        if cell.wide_cont {
            continue ;
        }
        let w: usize = columns_of(cell.ch);
        if used > 0 && (w > width || used > width - w) {
            let ghost open = buf@;
            out.push(buf);
            assert(grid(out@) =~= done.push(open));
            buf = Vec::new();
            buf.push(cell);
            assert(buf@ =~= seq![cell]);
            used = w;
            continue ;
        }
        buf.push(cell);
        used += w;
        if used >= width {
            let ghost open = buf@;
            out.push(buf);
            assert(grid(out@) =~= done.push(open));
            buf = Vec::new();
            used = 0;
            assert(buf@ =~= Seq::<Cell>::empty());
        }
    }
    assert(kept@.take(i as int) =~= kept@);
    if buf.len() > 0 || out.len() == 0 {
        let ghost done = grid(out@);
        let ghost open = buf@;
        out.push(buf);
        assert(grid(out@) =~= done.push(open));
    }
    out
}

/// Whether a row has no blanks at its end.
pub open spec fn is_trimmed(row: Seq<Cell>) -> bool {
    row.len() == 0 || !is_blank(row.last())
}

/// Trimming only takes blanks away at the end of a row, and leaves none there.
pub proof fn trimming_keeps_the_start(row: Seq<Cell>)
    ensures
        trimmed_row(row).is_prefix_of(row),
        is_trimmed(trimmed_row(row)),
        forall|i: int|
            trimmed_row(row).len() <= i < row.len() ==> (#[trigger] row[i]).ch == ' '
                && !row[i].wide_cont,
    decreases row.len(),
{
    if row.len() > 0 && is_blank(row.last()) {
        let before = row.drop_last();
        trimming_keeps_the_start(before);
        assert forall|i: int| trimmed_row(row).len() <= i < row.len() implies (
        #[trigger] row[i]).ch == ' ' && !row[i].wide_cont by {
            if i < before.len() {
                assert(row[i] == before[i]);
            }
        }
    }
}

/// Whether a row of at most `cols` cells does not end with half a wide character in the
/// last column.
pub open spec fn ends_whole(row: Seq<Cell>, cols: nat) -> bool {
    row.len() == cols && cols > 0 ==> !row.last().wide_cont && width_of(row.last().ch) <= 1
}

/// A row that is filled up keeps all but the blanks at its end.
pub proof fn filling_up_keeps_the_row(row: Seq<Cell>, cols: nat, style: Style)
    requires
        row.len() <= cols,
        ends_whole(row, cols),
    ensures
        trimmed_row(fitted_row(row, cols, style)) == trimmed_row(row),
    decreases cols,
{
    let fitted = fitted_row(row, cols, style);
    if row.len() == cols {
        assert(fitted =~= row);
    } else {
        let shorter = (cols - 1) as nat;
        assert(is_blank(fitted.last()));
        if row.len() < shorter || ends_whole(row, shorter) {
            filling_up_keeps_the_row(row, shorter, style);
            assert(fitted.drop_last() =~= fitted_row(row, shorter, style));
        } else {
            assert(fitted.drop_last() =~= row);
        }
    }
}

/// The cells of a row that are not continuations.
pub open spec fn own_cells(row: Seq<Cell>) -> Seq<Cell>
    decreases row.len(),
{
    if row.len() == 0 {
        Seq::empty()
    } else if row.last().wide_cont {
        own_cells(row.drop_last())
    } else {
        own_cells(row.drop_last()).push(row.last())
    }
}

/// Segments put one behind the other.
pub open spec fn joined(segments: Seq<Seq<Cell>>) -> Seq<Cell>
    decreases segments.len(),
{
    if segments.len() == 0 {
        Seq::empty()
    } else {
        joined(segments.drop_last()) + segments.last()
    }
}

/// The columns that some cells take up.
pub open spec fn row_columns(cells: Seq<Cell>) -> nat
    decreases cells.len(),
{
    if cells.len() == 0 {
        0
    } else {
        row_columns(cells.drop_last()) + cell_columns(cells.last().ch)
    }
}

/// Whether a segment fits into `width` columns, or is a single cell that does not.
pub open spec fn segment_fits(segment: Seq<Cell>, width: nat) -> bool {
    row_columns(segment) <= width || segment.len() == 1
}

/// Whether a segment has no room for the first cell of the next one.
pub open spec fn segment_full(segment: Seq<Cell>, next: Seq<Cell>, width: nat) -> bool {
    row_columns(segment) + cell_columns(next[0].ch) > width
}

proof fn lemma_wrap_cells(cells: Seq<Cell>, width: nat)
    requires
        width >= 1,
    ensures
        ({
            let w = wrap_cells(cells, width);
            &&& joined(w.done) + w.open == own_cells(cells)
            &&& w.used == row_columns(w.open)
            &&& segment_fits(w.open, width)
            &&& forall|i: int| 0 <= i < w.done.len() ==> segment_fits(#[trigger] w.done[i], width)
            &&& forall|i: int| 0 <= i < w.done.len() ==> (#[trigger] w.done[i]).len() > 0
            &&& forall|i: int, j: int|
                0 <= i < w.done.len() && j == i + 1 && j < w.done.len() ==> segment_full(
                    #[trigger] w.done[i],
                    #[trigger] w.done[j],
                    width,
                )
            &&& w.done.len() > 0 ==> if w.open.len() > 0 {
                segment_full(w.done.last(), w.open, width)
            } else {
                row_columns(w.done.last()) >= width
            }
        }),
    decreases cells.len(),
{
    if cells.len() == 0 {
        assert(joined(Seq::empty()) =~= Seq::empty());
    } else {
        lemma_wrap_cells(cells.drop_last(), width);
        let before = wrap_cells(cells.drop_last(), width);
        let cell = cells.last();
        let w = wrap_cells(cells, width);
        let columns = cell_columns(cell.ch);
        assert(row_columns(Seq::<Cell>::empty()) == 0);
        assert(seq![cell].drop_last() =~= Seq::<Cell>::empty());
        assert(before.open.push(cell).drop_last() =~= before.open);
        assert(before.done.push(before.open).drop_last() =~= before.done);
        assert(before.done.push(before.open.push(cell)).drop_last() =~= before.done);
        if cell.wide_cont {
        } else if before.used > 0 && before.used + columns > width {
            assert(row_columns(seq![cell]) == columns);
            assert(joined(w.done) =~= joined(before.done) + before.open);
            assert(joined(w.done) + w.open =~= own_cells(cells));
        } else {
            assert(row_columns(before.open.push(cell)) == before.used + columns);
            if before.open.len() > 0 {
                assert(row_columns(before.open) == row_columns(before.open.drop_last())
                    + cell_columns(before.open.last().ch));
            }
            assert(joined(before.done) + before.open.push(cell) =~= own_cells(cells));
            if before.used + columns >= width {
                assert(joined(w.done) =~= joined(before.done) + before.open.push(cell));
                assert(joined(w.done) + w.open =~= joined(w.done));
            }
        }
    }
}

/// Wrapping loses nothing but the blanks at the end of the line and the continuation
/// cells: the segments put together are the line's other cells. No segment is wider than
/// asked for, unless it is a single wide cell, none but that of a blank line is empty, and
/// none has room for the first cell of the next one.
pub proof fn wrapping_keeps_cells(line: Seq<Cell>, width: nat)
    ensures
        joined(wrapped(line, width)) == own_cells(trimmed_row(line)),
        forall|i: int|
            0 <= i < wrapped(line, width).len() ==> segment_fits(
                #[trigger] wrapped(line, width)[i],
                if width == 0 {
                    1
                } else {
                    width
                },
            ),
        forall|i: int|
            0 <= i < wrapped(line, width).len() ==> (#[trigger] wrapped(line, width)[i]).len() > 0
                || wrapped(line, width).len() == 1,
        forall|i: int, j: int|
            0 <= i && j == i + 1 && j < wrapped(line, width).len() ==> segment_full(
                #[trigger] wrapped(line, width)[i],
                #[trigger] wrapped(line, width)[j],
                if width == 0 {
                    1
                } else {
                    width
                },
            ),
{
    let columns = if width == 0 {
        1
    } else {
        width
    };
    lemma_wrap_cells(trimmed_row(line), columns);
    let w = wrap_cells(trimmed_row(line), columns);
    assert(w.done.push(w.open).drop_last() =~= w.done);
    assert(joined(w.done) + Seq::<Cell>::empty() =~= joined(w.done));
}

/// Cutting a row or filling it up gives a row of that many cells: those of the row, and
/// blanks behind them. A wide character that is cut in the last column becomes a blank.
pub proof fn fitted_rows_have_the_width(row: Seq<Cell>, cols: nat, style: Style, i: int)
    requires
        0 <= i < cols,
    ensures
        fitted_row(row, cols, style).len() == cols,
        i + 1 < cols && i < row.len() ==> fitted_row(row, cols, style)[i] == row[i],
        i >= row.len() ==> fitted_row(row, cols, style)[i] == (Cell {
            ch: ' ',
            style,
            wide_cont: false,
        }),
        i + 1 == cols && i < row.len() && !row[i].wide_cont && width_of(row[i].ch) <= 1
            ==> fitted_row(row, cols, style)[i] == row[i],
        i + 1 == cols && i < row.len() && (row[i].wide_cont || width_of(row[i].ch) > 1)
            ==> fitted_row(row, cols, style)[i] == (Cell { ch: ' ', style, wide_cont: false }),
{
}

} // verus!
