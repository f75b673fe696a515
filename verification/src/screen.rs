//! The mathematical model of a terminal: what its state is and what each control
//! function does to it.

use crate::cell::{
    blank_cell, cell_columns, cell_text, ends_whole, filling_up_keeps_the_row, fitted_row,
    is_trimmed, plain_style, row_text, rows_text, trimmed_row, trimmed_rows,
    trimming_keeps_the_start, Cell, Style,
};
use crate::text::{before, split, unsigned_value};
use vstd::prelude::*;

verus! {

/// What the next character belongs to.
#[derive(Debug, Clone, Copy, PartialEq, Eq, Structural)]
pub enum ParseState {
    /// Ordinary text.
    Normal,
    /// An escape sequence, directly behind the escape character.
    Esc,
    /// A control sequence, behind `ESC [`.
    Csi,
    /// An operating system command, behind `ESC ]`.
    Osc,
    /// An escape sequence with intermediate characters.
    EscOther,
    /// The designation of a character set, behind one of `ESC ( ) * +`.
    Charset,
}

/// A place on the screen.
pub struct Position {
    pub row: nat,
    pub col: nat,
}

/// The state of a terminal.
#[verifier::ext_equal]
pub struct Screen {
    pub rows: nat,
    pub cols: nat,
    /// The rows that have left the screen at its top, oldest first.
    pub history: Seq<Seq<Cell>>,
    /// The style of what is written next.
    pub style: Style,
    pub lines: Seq<Seq<Cell>>,
    pub cursor: Position,
    pub saved: Position,
    /// Whether the last column has just been written, so that the next character goes
    /// to the next line.
    pub wrap_pending: bool,
    pub state: ParseState,
    pub csi: Seq<char>,
    pub esc_other: Seq<char>,
    pub osc: Seq<char>,
    /// Whether an escape character has been seen inside an operating system command.
    pub osc_escape: bool,
    /// Whether a synchronized update is under way.
    pub sync_active: bool,
    /// The leftmost column changed on the cursor's line since the cursor came there.
    pub dirty: Option<nat>,
}

pub open spec fn min(a: nat, b: nat) -> nat {
    if a <= b {
        a
    } else {
        b
    }
}

/// A row of blanks.
pub open spec fn blank_row(cols: nat, style: Style) -> Seq<Cell> {
    Seq::new(cols, |i: int| blank_cell(style))
}

/// `rows` rows of blanks.
pub open spec fn blank_rows(rows: nat, cols: nat, style: Style) -> Seq<Seq<Cell>> {
    Seq::new(rows, |i: int| blank_row(cols, style))
}

impl Position {
    pub open spec fn origin() -> Position {
        Position { row: 0, col: 0 }
    }

    /// The nearest place on a screen of the given size.
    pub open spec fn clamped(self, rows: nat, cols: nat) -> Position {
        Position { row: min(self.row, (rows - 1) as nat), col: min(self.col, (cols - 1) as nat) }
    }
}

// Control sequences
// -----------------

/// Whether `ch` ends a control sequence.
pub open spec fn is_final(ch: char) -> bool {
    '@' <= ch <= '~'
}

/// Whether a control sequence is well formed: parameter and intermediate characters,
/// then a final one.
pub open spec fn well_formed_csi(seq: Seq<char>) -> bool {
    &&& seq.len() > 0
    &&& is_final(seq.last())
    &&& forall|i: int| 0 <= i < seq.len() - 1 ==> ' ' <= #[trigger] seq[i] <= '?'
}

/// Whether `ch` marks a control sequence as private.
pub open spec fn is_private_mark(ch: char) -> bool {
    ch == '<' || ch == '=' || ch == '>' || ch == '?'
}

/// The private mark of a control sequence.
pub open spec fn csi_private(seq: Seq<char>) -> Option<char> {
    if seq.len() > 1 && is_private_mark(seq[0]) {
        Some(seq[0])
    } else {
        None
    }
}

/// What stands between the private mark and the final character.
pub open spec fn csi_body(seq: Seq<char>) -> Seq<char> {
    if csi_private(seq) is Some {
        seq.drop_last().skip(1)
    } else {
        seq.drop_last()
    }
}

/// The value of a numeric parameter; anything behind a colon is ignored.
pub open spec fn csi_number(part: Seq<char>) -> Option<nat> {
    unsigned_value(before(part, ':'), usize::MAX as nat)
}

/// The numeric parameters, separated by semicolons.
pub open spec fn csi_numbers(body: Seq<char>) -> Seq<Option<nat>> {
    split(body, ';').map_values(|part: Seq<char>| csi_number(part))
}

/// A parameter's value; zero and what is missing or unreadable stand for the default.
pub open spec fn param(params: Seq<Option<nat>>, index: int, default: nat) -> nat {
    if 0 <= index < params.len() {
        match params[index] {
            Some(value) => if value == 0 {
                default
            } else {
                value
            },
            None => default,
        }
    } else {
        default
    }
}

/// The control functions that drop a pending wrap.
pub open spec fn cancels_wrap(final_char: char) -> bool {
    ||| 'A' <= final_char <= 'H'
    ||| 'J' <= final_char <= 'M'
    ||| final_char == '@'
    ||| final_char == 'P'
    ||| final_char == 'S'
    ||| final_char == 'T'
    ||| final_char == 'X'
    ||| final_char == 'f'
    ||| final_char == 's'
    ||| final_char == 'u'
}

// Graphic renditions
// ------------------

/// The number in a rendition parameter; an empty one is zero.
pub open spec fn sgr_code(part: Seq<char>) -> Option<u16> {
    let number = before(part, ':');
    if number.len() == 0 {
        Some(0)
    } else {
        match unsigned_value(number, u16::MAX as nat) {
            Some(value) => Some(value as u16),
            None => None,
        }
    }
}

/// The numbers in the rendition parameters, separated by semicolons.
pub open spec fn sgr_codes(body: Seq<char>) -> Seq<Option<u16>> {
    split(body, ';').map_values(|part: Seq<char>| sgr_code(part))
}

/// The low byte of a number.
pub open spec fn low_byte(value: u16) -> u8 {
    (value % 256) as u8
}

/// A channel value on the six levels of the colour cube, to the nearest.
pub open spec fn cube_level(channel: u8) -> nat {
    (2 * channel as nat + 51) / 102
}

/// The place of a grey between 8 and 248 on the grey ramp, to the nearest.
pub open spec fn grey_level(grey: u8) -> nat {
    ((48 * (grey as nat - 8) + 247) / 494) as nat
}

/// The palette entry that stands for a colour: for a grey an entry of the grey ramp or
/// one of the cube's two ends, otherwise one of the colour cube.
pub open spec fn palette_entry(r: u8, g: u8, b: u8) -> nat {
    if r == g && g == b {
        if r < 8 {
            16
        } else if r > 248 {
            231
        } else {
            232 + grey_level(r)
        }
    } else {
        16 + 36 * cube_level(r) + 6 * cube_level(g) + cube_level(b)
    }
}

/// The style after a rendition code that stands alone.
pub open spec fn sgr_style(style: Style, code: u16) -> Style {
    if code == 0 {
        plain_style()
    } else if code == 1 {
        Style { bold: true, ..style }
    } else if code == 2 {
        Style { dim: true, ..style }
    } else if code == 22 {
        Style { bold: false, dim: false, ..style }
    } else if code == 7 {
        Style { reverse: true, ..style }
    } else if code == 27 {
        Style { reverse: false, ..style }
    } else if 30 <= code <= 37 {
        Style { fg: Some((code - 30) as u8), ..style }
    } else if code == 39 {
        Style { fg: None, ..style }
    } else if 40 <= code <= 47 {
        Style { bg: Some((code - 40) as u8), ..style }
    } else if code == 49 {
        Style { bg: None, ..style }
    } else if 90 <= code <= 97 {
        Style { fg: Some((code - 82) as u8), ..style }
    } else if 100 <= code <= 107 {
        Style { bg: Some((code - 92) as u8), ..style }
    } else {
        style
    }
}

/// The code at `index`; what is missing is unreadable.
pub open spec fn code_at(codes: Seq<Option<u16>>, index: int) -> Option<u16> {
    if 0 <= index < codes.len() {
        codes[index]
    } else {
        None
    }
}

/// The colour that the codes from `index` on name, behind a 38 or a 48: `5;n` for a
/// palette entry, `2;r;g;b` for a colour by its channels.
pub open spec fn extended_color(codes: Seq<Option<u16>>, index: int) -> Option<u8> {
    if code_at(codes, index) == Some(5u16) {
        match code_at(codes, index + 1) {
            Some(value) => Some(low_byte(value)),
            None => None,
        }
    } else if code_at(codes, index) == Some(2u16) {
        match (
            code_at(codes, index + 1),
            code_at(codes, index + 2),
            code_at(codes, index + 3),
        ) {
            (Some(r), Some(g), Some(b)) => Some(
                palette_entry(low_byte(r), low_byte(g), low_byte(b)) as u8,
            ),
            _ => None,
        }
    } else {
        None
    }
}

/// How many codes an extended colour takes up from `index` on.
pub open spec fn extended_len(codes: Seq<Option<u16>>, index: int) -> int {
    if code_at(codes, index) == Some(5u16) {
        2
    } else if code_at(codes, index) == Some(2u16) {
        4
    } else {
        1
    }
}

/// The style after the codes from `index` on, in order. Unreadable codes are skipped.
pub open spec fn sgr_from(style: Style, codes: Seq<Option<u16>>, index: int) -> Style
    decreases
            (if index < codes.len() {
                codes.len() - index
            } else {
                0
            }),
{
    if index < 0 || index >= codes.len() {
        style
    } else {
        match codes[index] {
            None => sgr_from(style, codes, index + 1),
            Some(code) => if code == 38 || code == 48 {
                let next = match extended_color(codes, index + 1) {
                    Some(color) => if code == 38 {
                        Style { fg: Some(color), ..style }
                    } else {
                        Style { bg: Some(color), ..style }
                    },
                    None => style,
                };
                sgr_from(next, codes, index + 1 + extended_len(codes, index + 1))
            } else {
                sgr_from(sgr_style(style, code), codes, index + 1)
            },
        }
    }
}

// The screen
// ----------

impl Screen {
    /// A screen has at least one row and one column, its lines fill it, no row of the history
    /// is wider than it, and the cursor and the saved cursor are on it.
    pub open spec fn wf(self) -> bool {
        &&& self.rows >= 1
        &&& self.cols >= 1
        &&& self.lines.len() == self.rows
        &&& forall|i: int| 0 <= i < self.rows ==> (#[trigger] self.lines[i]).len() == self.cols
        &&& forall|i: int|
            0 <= i < self.history.len() ==> (#[trigger] self.history[i]).len() <= self.cols
        &&& self.cursor.row < self.rows
        &&& self.cursor.col < self.cols
        &&& self.saved.row < self.rows
        &&& self.saved.col < self.cols
    }

    /// A blank screen with the given history.
    pub open spec fn initial(rows: nat, cols: nat, history: Seq<Seq<Cell>>) -> Screen {
        Screen {
            rows,
            cols,
            history,
            style: plain_style(),
            lines: blank_rows(rows, cols, plain_style()),
            cursor: Position::origin(),
            saved: Position::origin(),
            wrap_pending: false,
            state: ParseState::Normal,
            csi: Seq::empty(),
            esc_other: Seq::empty(),
            osc: Seq::empty(),
            osc_escape: false,
            sync_active: false,
            dirty: None,
        }
    }

    pub open spec fn reset(self, preserve_history: bool) -> Screen {
        Screen::initial(
            self.rows,
            self.cols,
            if preserve_history {
                self.history
            } else {
                Seq::empty()
            },
        )
    }

    /// A row of blanks in the current style.
    pub open spec fn blank(self) -> Seq<Cell> {
        blank_row(self.cols, self.style)
    }

    /// The cursor's line.
    pub open spec fn line(self) -> Seq<Cell> {
        self.lines[self.cursor.row as int]
    }

    pub open spec fn with_line(self, line: Seq<Cell>) -> Screen {
        Screen { lines: self.lines.update(self.cursor.row as int, line), ..self }
    }

    pub open spec fn with_row(self, row: nat) -> Screen {
        Screen { cursor: Position { row, ..self.cursor }, ..self }
    }

    pub open spec fn with_col(self, col: nat) -> Screen {
        Screen { cursor: Position { col, ..self.cursor }, ..self }
    }

    pub open spec fn with_state(self, state: ParseState) -> Screen {
        Screen { state, ..self }
    }

    pub open spec fn clean(self) -> Screen {
        Screen { dirty: None, ..self }
    }

    pub open spec fn mark_dirty(self, col: nat) -> Screen {
        Screen {
            dirty: match self.dirty {
                Some(current) => Some(min(current, col)),
                None => Some(col),
            },
            ..self
        }
    }

    pub open spec fn cancel_wrap(self) -> Screen {
        Screen { wrap_pending: false, ..self }
    }

    /// Moves the top `amount` rows into the history, trimmed; blank rows come in at the
    /// bottom, and go into the history too where `amount` exceeds the screen.
    pub open spec fn scroll_up(self, amount: nat) -> Screen {
        Screen {
            history: self.history + Seq::new(
                amount,
                |i: int|
                    trimmed_row(
                        if i < self.rows {
                            self.lines[i]
                        } else {
                            self.blank()
                        },
                    ),
            ),
            lines: Seq::new(
                self.rows,
                |i: int|
                    if i + amount < self.rows {
                        self.lines[i + amount]
                    } else {
                        self.blank()
                    },
            ),
            ..self
        }
    }

    /// Moves the rows down by `amount`; blank rows come in at the top.
    pub open spec fn scroll_down(self, amount: nat) -> Screen {
        Screen {
            lines: Seq::new(
                self.rows,
                |i: int|
                    if i < amount {
                        self.blank()
                    } else {
                        self.lines[i - amount]
                    },
            ),
            ..self
        }
    }

    /// Whether a line feed on the last row moves the status area only: during a
    /// synchronized update, when only the right half of the line has been changed.
    pub open spec fn in_status_area(self) -> bool {
        &&& self.dirty matches Some(col)
        &&& self.sync_active
        &&& self.cursor.row + 1 >= self.rows
        &&& col >= self.cols / 2
    }

    /// Moves the last three rows up by one within their area; the first of them is lost.
    pub open spec fn scroll_status_area(self) -> Screen {
        if self.rows == 1 {
            self
        } else {
            Screen {
                lines: Seq::new(
                    self.rows,
                    |i: int|
                        if i == self.rows - 1 {
                            self.blank()
                        } else if i >= self.rows - 3 {
                            self.lines[i + 1]
                        } else {
                            self.lines[i]
                        },
                ),
                ..self
            }
        }
    }

    pub open spec fn linefeed(self) -> Screen {
        if self.cursor.row + 1 < self.rows {
            self.with_row(self.cursor.row + 1).clean()
        } else if self.in_status_area() {
            self.scroll_status_area().clean()
        } else {
            self.scroll_up(1).clean()
        }
    }

    pub open spec fn reverse_index(self) -> Screen {
        if self.cursor.row > 0 {
            self.with_row((self.cursor.row - 1) as nat).clean()
        } else {
            self.scroll_down(1).clean()
        }
    }

    pub open spec fn cursor_up(self, amount: nat) -> Screen {
        let s = if amount > 0 {
            self.clean()
        } else {
            self
        };
        s.with_row(
            if amount <= self.cursor.row {
                (self.cursor.row - amount) as nat
            } else {
                0
            },
        )
    }

    pub open spec fn cursor_down(self, amount: nat) -> Screen {
        let s = if amount > 0 {
            self.clean()
        } else {
            self
        };
        s.with_row(min((self.rows - 1) as nat, self.cursor.row + amount))
    }

    pub open spec fn cursor_right(self, amount: nat) -> Screen {
        self.with_col(min((self.cols - 1) as nat, self.cursor.col + amount))
    }

    pub open spec fn cursor_left(self, amount: nat) -> Screen {
        self.with_col(
            if amount <= self.cursor.col {
                (self.cursor.col - amount) as nat
            } else {
                0
            },
        )
    }

    /// Moves to a place; beyond the screen, to its last row or column.
    pub open spec fn move_to(self, row: nat, col: nat) -> Screen {
        let s = if row != self.cursor.row {
            self.clean()
        } else {
            self
        };
        Screen { cursor: Position { row, col }.clamped(self.rows, self.cols), ..s }
    }

    /// Moves to the next multiple of eight, or to the last column.
    pub open spec fn tab(self) -> Screen {
        self.with_col(min((self.cursor.col / 8 + 1) * 8, (self.cols - 1) as nat))
    }

    /// Blanks the cells of the cursor's line in `[from, to)`.
    pub open spec fn blank_cells(self, from: nat, to: nat) -> Screen {
        self.with_line(
            Seq::new(
                self.cols,
                |i: int|
                    if from <= i < to {
                        blank_cell(self.style)
                    } else {
                        self.line()[i]
                    },
            ),
        )
    }

    /// Blanks the rows in `[from, to)`.
    pub open spec fn blank_lines(self, from: nat, to: nat) -> Screen {
        Screen {
            lines: Seq::new(
                self.rows,
                |i: int|
                    if from <= i < to {
                        self.blank()
                    } else {
                        self.lines[i]
                    },
            ),
            ..self
        }
    }

    /// Blanks from the cursor to the end (0), from the start up to the cursor (1), or the
    /// whole line.
    pub open spec fn erase_in_line(self, mode: nat) -> Screen {
        if mode == 0 {
            self.mark_dirty(self.cursor.col).blank_cells(self.cursor.col, self.cols)
        } else if mode == 1 {
            self.mark_dirty(0).blank_cells(0, self.cursor.col + 1)
        } else {
            self.mark_dirty(0).blank_cells(0, self.cols)
        }
    }

    /// Blanks from the cursor to the end (0), from the start up to the cursor (1), or the
    /// whole screen.
    pub open spec fn erase_in_display(self, mode: nat) -> Screen {
        if mode == 0 {
            self.erase_in_line(0).blank_lines(self.cursor.row + 1, self.rows)
        } else if mode == 1 {
            self.erase_in_line(1).blank_lines(0, self.cursor.row)
        } else {
            self.blank_lines(0, self.rows)
        }
    }

    /// Inserts blank rows at the cursor; rows pushed beyond the bottom are lost.
    pub open spec fn insert_lines(self, amount: nat) -> Screen {
        Screen {
            lines: Seq::new(
                self.rows,
                |i: int|
                    if i < self.cursor.row {
                        self.lines[i]
                    } else if i < self.cursor.row + amount {
                        self.blank()
                    } else {
                        self.lines[i - amount]
                    },
            ),
            ..self.clean()
        }
    }

    /// Removes rows at the cursor; blank rows come in at the bottom.
    pub open spec fn delete_lines(self, amount: nat) -> Screen {
        Screen {
            lines: Seq::new(
                self.rows,
                |i: int|
                    if i < self.cursor.row {
                        self.lines[i]
                    } else if i + amount < self.rows {
                        self.lines[i + amount]
                    } else {
                        self.blank()
                    },
            ),
            ..self.clean()
        }
    }

    /// Inserts blanks at the cursor; cells pushed beyond the last column are lost.
    pub open spec fn insert_chars(self, amount: nat) -> Screen {
        self.mark_dirty(self.cursor.col).with_line(
            Seq::new(
                self.cols,
                |i: int|
                    if i < self.cursor.col {
                        self.line()[i]
                    } else if i < self.cursor.col + amount {
                        blank_cell(self.style)
                    } else {
                        self.line()[i - amount]
                    },
            ),
        )
    }

    /// Removes cells at the cursor; blanks come in at the end of the line.
    pub open spec fn delete_chars(self, amount: nat) -> Screen {
        self.mark_dirty(self.cursor.col).with_line(
            Seq::new(
                self.cols,
                |i: int|
                    if i < self.cursor.col {
                        self.line()[i]
                    } else if i + amount < self.cols {
                        self.line()[i + amount]
                    } else {
                        blank_cell(self.style)
                    },
            ),
        )
    }

    /// Blanks cells from the cursor on, without moving the others.
    pub open spec fn erase_chars(self, amount: nat) -> Screen {
        self.mark_dirty(self.cursor.col).blank_cells(self.cursor.col, self.cursor.col + amount)
    }

    /// Writes a character into the cell under the cursor, and a continuation cell behind a
    /// wide one.
    pub open spec fn write_cell(self, ch: char, width: nat) -> Screen {
        let col = self.cursor.col as int;
        let first = self.line().update(
            col,
            Cell { ch, style: self.style, wide_cont: false },
        );
        self.with_line(
            if width == 2 && col + 1 < self.cols {
                first.update(col + 1, Cell { ch: ' ', style: self.style, wide_cont: true })
            } else {
                first
            },
        )
    }

    /// Moves past what has been written; in the last column, leaves a wrap pending.
    pub open spec fn advance(self, width: nat) -> Screen {
        if self.cursor.col + width >= self.cols {
            Screen { wrap_pending: true, ..self.with_col((self.cols - 1) as nat) }
        } else {
            Screen { wrap_pending: false, ..self.with_col(self.cursor.col + width) }
        }
    }

    /// Goes to the start of the next line if a wrap is pending.
    pub open spec fn wrap(self) -> Screen {
        if self.wrap_pending {
            self.linefeed().with_col(0).cancel_wrap()
        } else {
            self
        }
    }

    /// Writes a character at the cursor. A wide character that the rest of the line has no
    /// room for goes to the next line; one wider than the screen is dropped.
    pub open spec fn put_char(self, ch: char) -> Screen {
        let width = cell_columns(ch);
        let start = self.wrap();
        if width > self.cols {
            start
        } else {
            let s = if width == 2 && start.cursor.col + width > self.cols {
                start.with_col(0).linefeed()
            } else {
                start
            };
            s.mark_dirty(s.cursor.col).write_cell(ch, width).advance(width)
        }
    }

    /// Applies rendition parameters to the current style.
    pub open spec fn handle_sgr(self, body: Seq<char>) -> Screen {
        Screen { style: sgr_from(self.style, sgr_codes(body), 0), ..self }
    }

    /// Carries out a control function.
    pub open spec fn control(
        self,
        final_char: char,
        private: Option<char>,
        body: Seq<char>,
    ) -> Screen {
        let params = csi_numbers(body);
        let count = param(params, 0, 1);
        if final_char == 'A' {
            self.cursor_up(count)
        } else if final_char == 'B' {
            self.cursor_down(count)
        } else if final_char == 'C' {
            self.cursor_right(count)
        } else if final_char == 'D' {
            self.cursor_left(count)
        } else if final_char == 'E' {
            self.cursor_down(count).with_col(0)
        } else if final_char == 'F' {
            self.cursor_up(count).with_col(0)
        } else if final_char == 'G' {
            self.with_col(min((self.cols - 1) as nat, (count - 1) as nat))
        } else if final_char == 'H' || final_char == 'f' {
            self.move_to((count - 1) as nat, (param(params, 1, 1) - 1) as nat)
        } else if final_char == 'J' {
            self.erase_in_display(param(params, 0, 0))
        } else if final_char == 'K' {
            self.erase_in_line(param(params, 0, 0))
        } else if final_char == 'L' {
            self.insert_lines(count)
        } else if final_char == 'M' {
            self.delete_lines(count)
        } else if final_char == '@' {
            self.insert_chars(count)
        } else if final_char == 'P' {
            self.delete_chars(count)
        } else if final_char == 'X' {
            self.erase_chars(count)
        } else if final_char == 'S' {
            self.scroll_up(count)
        } else if final_char == 'T' {
            self.scroll_down(count)
        } else if final_char == 'm' {
            self.handle_sgr(body)
        } else if final_char == 's' {
            Screen { saved: self.cursor, ..self }
        } else if final_char == 'u' {
            Screen { cursor: self.saved, ..self }
        } else if (final_char == 'h' || final_char == 'l') && private == Some('?')
            && params.contains(Some(2026)) {
            Screen { sync_active: final_char == 'h', ..self }
        } else {
            self
        }
    }

    /// Carries out a control sequence; one that is not well formed is ignored.
    pub open spec fn handle_csi(self, seq: Seq<char>) -> Screen {
        if well_formed_csi(seq) {
            let s = if cancels_wrap(seq.last()) {
                self.cancel_wrap()
            } else {
                self
            };
            s.control(seq.last(), csi_private(seq), csi_body(seq))
        } else {
            self
        }
    }

    pub open spec fn feed_normal(self, ch: char) -> Screen {
        if ch == '\x1b' {
            self.with_state(ParseState::Esc)
        } else if ch == '\r' {
            self.cancel_wrap().with_col(0)
        } else if ch == '\n' {
            self.cancel_wrap().linefeed()
        } else if ch == '\x08' {
            self.cancel_wrap().cursor_left(1)
        } else if ch == '\t' {
            self.cancel_wrap().tab()
        } else if (ch as u32) < 32 || ch as u32 == 127 {
            self
        } else {
            self.put_char(ch)
        }
    }

    pub open spec fn feed_esc(self, ch: char) -> Screen {
        let s = self.with_state(ParseState::Normal);
        if ch == '[' {
            Screen { csi: Seq::empty(), state: ParseState::Csi, ..self }
        } else if ch == ']' {
            Screen { osc: Seq::empty(), osc_escape: false, state: ParseState::Osc, ..self }
        } else if ch == '(' || ch == ')' || ch == '*' || ch == '+' {
            self.with_state(ParseState::Charset)
        } else if ch == '7' {
            Screen { saved: self.cursor, ..s }
        } else if ch == '8' {
            Screen { cursor: self.saved, ..s.cancel_wrap() }
        } else if ch == 'c' {
            self.reset(true)
        } else if ch == 'D' {
            s.cancel_wrap().linefeed()
        } else if ch == 'E' {
            s.cancel_wrap().with_col(0).linefeed()
        } else if ch == 'M' {
            s.cancel_wrap().reverse_index()
        } else if is_final(ch) {
            s
        } else {
            Screen { esc_other: seq![ch], state: ParseState::EscOther, ..self }
        }
    }

    pub open spec fn feed_esc_other(self, ch: char) -> Screen {
        Screen {
            esc_other: self.esc_other.push(ch),
            state: if is_final(ch) {
                ParseState::Normal
            } else {
                self.state
            },
            ..self
        }
    }

    pub open spec fn feed_osc(self, ch: char) -> Screen {
        if self.osc_escape {
            if ch == '\\' {
                Screen { osc_escape: false, state: ParseState::Normal, ..self }
            } else {
                Screen { osc_escape: false, osc: self.osc.push('\x1b').push(ch), ..self }
            }
        } else if ch == '\x07' {
            self.with_state(ParseState::Normal)
        } else if ch == '\x1b' {
            Screen { osc_escape: true, ..self }
        } else {
            Screen { osc: self.osc.push(ch), ..self }
        }
    }

    pub open spec fn feed_csi(self, ch: char) -> Screen {
        let seq = self.csi.push(ch);
        if is_final(ch) {
            Screen { csi: Seq::empty(), state: ParseState::Normal, ..self }.handle_csi(seq)
        } else {
            Screen { csi: seq, ..self }
        }
    }

    /// Takes in one character.
    #[verifier::opaque]
    pub open spec fn feed_char(self, ch: char) -> Screen {
        match self.state {
            ParseState::Normal => self.feed_normal(ch),
            ParseState::Esc => self.feed_esc(ch),
            ParseState::Csi => self.feed_csi(ch),
            ParseState::Osc => self.feed_osc(ch),
            ParseState::EscOther => self.feed_esc_other(ch),
            ParseState::Charset => self.with_state(ParseState::Normal),
        }
    }

    /// Takes in a text, character by character.
    pub open spec fn feed(self, text: Seq<char>) -> Screen
        decreases text.len(),
    {
        if text.len() == 0 {
            self
        } else {
            self.feed(text.drop_last()).feed_char(text.last())
        }
    }

    /// Changes the size. All rows are cut or filled up to the new width; if the screen gets
    /// lower, its top rows go into the history, if higher, blank rows come in below.
    #[verifier::opaque]
    pub open spec fn resize(self, rows: nat, cols: nat) -> Screen {
        let new_rows = if rows == 0 {
            1
        } else {
            rows
        };
        let new_cols = if cols == 0 {
            1
        } else {
            cols
        };
        if new_rows == self.rows && new_cols == self.cols {
            self
        } else {
            let history = Seq::new(
                self.history.len(),
                |i: int| fitted_row(self.history[i], new_cols, plain_style()),
            );
            let lines = Seq::new(
                self.lines.len(),
                |i: int| fitted_row(self.lines[i], new_cols, self.style),
            );
            let gone: nat = if lines.len() > new_rows {
                (lines.len() - new_rows) as nat
            } else {
                0
            };
            let kept = lines.skip(gone as int);
            let col = if self.wrap_pending {
                self.cursor.col + 1
            } else {
                self.cursor.col
            };
            Screen {
                rows: new_rows,
                cols: new_cols,
                history: history + trimmed_rows(lines.take(gone as int)),
                lines: kept + blank_rows(
                    (new_rows - kept.len()) as nat,
                    new_cols,
                    self.style,
                ),
                cursor: Position { row: self.cursor.row, col }.clamped(new_rows, new_cols),
                saved: self.saved.clamped(new_rows, new_cols),
                wrap_pending: false,
                dirty: None,
                ..self
            }
        }
    }

    /// The same screen with more rows at the front of the history.
    pub open spec fn preceded(self, rows: Seq<Seq<Cell>>) -> Screen {
        Screen { history: rows + self.history, ..self }
    }

    /// All rows: the history, then the screen without the blanks at the ends of its rows.
    pub open spec fn rendered_rows(self) -> Seq<Seq<Cell>> {
        self.history + trimmed_rows(self.lines)
    }
}

// Laws
// ----

/// Whether `later` has the size of `earlier` and all of its history, with perhaps more
/// rows behind, without blanks at their ends.
pub open spec fn extends(earlier: Screen, later: Screen) -> bool {
    &&& later.rows == earlier.rows
    &&& later.cols == earlier.cols
    &&& earlier.history.is_prefix_of(later.history)
    &&& forall|i: int|
        earlier.history.len() <= i < later.history.len() ==> is_trimmed(#[trigger] later.history[i])
}

/// Taking in a text in two parts is the same as taking it in at once.
pub proof fn feed_in_parts(screen: Screen, first: Seq<char>, second: Seq<char>)
    ensures
        screen.feed(first + second) == screen.feed(first).feed(second),
    decreases second.len(),
{
    if second.len() == 0 {
        assert(first + second =~= first);
    } else {
        feed_in_parts(screen, first, second.drop_last());
        assert((first + second).drop_last() =~= first + second.drop_last());
        assert((first + second).last() == second.last());
    }
}

proof fn lemma_scroll_up_extends(screen: Screen, amount: nat)
    ensures
        extends(screen, screen.scroll_up(amount)),
{
    let later = screen.scroll_up(amount);
    assert(screen.history.is_prefix_of(later.history));
    assert forall|i: int| screen.history.len() <= i < later.history.len() implies is_trimmed(
        #[trigger] later.history[i],
    ) by {
        let k = i - screen.history.len();
        trimming_keeps_the_start(screen.blank());
        trimming_keeps_the_start(screen.lines[k]);
    }
}

proof fn lemma_linefeed_extends(screen: Screen)
    ensures
        extends(screen, screen.linefeed()),
{
    lemma_scroll_up_extends(screen, 1);
}

proof fn lemma_control_extends(
    screen: Screen,
    final_char: char,
    private: Option<char>,
    body: Seq<char>,
)
    ensures
        extends(screen, screen.control(final_char, private, body)),
{
    lemma_scroll_up_extends(screen, param(csi_numbers(body), 0, 1));
}

proof fn lemma_put_char_extends(screen: Screen, ch: char)
    ensures
        extends(screen, screen.put_char(ch)),
{
    let start = screen.wrap();
    lemma_linefeed_extends(screen);
    assert(extends(screen, start));
    lemma_linefeed_extends(start.with_col(0));
    assert(extends(screen, start.with_col(0).linefeed()));
}

proof fn lemma_feed_normal_extends(screen: Screen, ch: char)
    ensures
        extends(screen, screen.feed_normal(ch)),
{
    lemma_linefeed_extends(screen.cancel_wrap());
    lemma_put_char_extends(screen, ch);
}

proof fn lemma_feed_esc_extends(screen: Screen, ch: char)
    ensures
        extends(screen, screen.feed_esc(ch)),
{
    let s = screen.with_state(ParseState::Normal).cancel_wrap();
    lemma_linefeed_extends(s);
    lemma_linefeed_extends(s.with_col(0));
}

proof fn lemma_feed_csi_extends(screen: Screen, ch: char)
    ensures
        extends(screen, screen.feed_csi(ch)),
{
    let seq = screen.csi.push(ch);
    let s = Screen { csi: Seq::empty(), state: ParseState::Normal, ..screen };
    lemma_control_extends(s, seq.last(), csi_private(seq), csi_body(seq));
    lemma_control_extends(s.cancel_wrap(), seq.last(), csi_private(seq), csi_body(seq));
}

proof fn lemma_feed_char_extends(screen: Screen, ch: char)
    ensures
        extends(screen, screen.feed_char(ch)),
{
    reveal(Screen::feed_char);
    match screen.state {
        ParseState::Normal => lemma_feed_normal_extends(screen, ch),
        ParseState::Esc => lemma_feed_esc_extends(screen, ch),
        ParseState::Csi => lemma_feed_csi_extends(screen, ch),
        _ => {},
    }
}

pub proof fn lemma_extends_further(first: Screen, second: Screen, third: Screen)
    requires
        extends(first, second),
        extends(second, third),
    ensures
        extends(first, third),
{
    assert forall|i: int|
        first.history.len() <= i < third.history.len() implies is_trimmed(
        #[trigger] third.history[i],
    ) by {
        if i < second.history.len() {
            assert(third.history[i] == second.history[i]);
        }
    }
}

/// Output never changes the size, and never takes back a row of the history: it only
/// adds rows behind, without the blanks at their ends.
pub proof fn feed_keeps_history(screen: Screen, text: Seq<char>)
    ensures
        extends(screen, screen.feed(text)),
    decreases text.len(),
{
    if text.len() > 0 {
        feed_keeps_history(screen, text.drop_last());
        let before = screen.feed(text.drop_last());
        lemma_feed_char_extends(before, text.last());
        lemma_extends_further(screen, before, screen.feed(text));
    }
}

proof fn lemma_scroll_up_preceded(screen: Screen, rows: Seq<Seq<Cell>>, amount: nat)
    ensures
        screen.preceded(rows).scroll_up(amount) == screen.scroll_up(amount).preceded(rows),
{
    let one = screen.preceded(rows).scroll_up(amount);
    let other = screen.scroll_up(amount).preceded(rows);
    assert(one.lines =~= other.lines);
    assert(one.history =~= other.history);
}

proof fn lemma_scroll_preceded(screen: Screen, rows: Seq<Seq<Cell>>, amount: nat)
    ensures
        screen.preceded(rows).scroll_down(amount) == screen.scroll_down(amount).preceded(rows),
        screen.preceded(rows).scroll_status_area() == screen.scroll_status_area().preceded(rows),
        screen.preceded(rows).insert_lines(amount) == screen.insert_lines(amount).preceded(rows),
        screen.preceded(rows).delete_lines(amount) == screen.delete_lines(amount).preceded(rows),
{
    let s = screen.preceded(rows);
    assert(s.scroll_down(amount).lines =~= screen.scroll_down(amount).lines);
    assert(s.scroll_status_area().lines =~= screen.scroll_status_area().lines);
    assert(s.insert_lines(amount).lines =~= screen.insert_lines(amount).lines);
    assert(s.delete_lines(amount).lines =~= screen.delete_lines(amount).lines);
}

proof fn lemma_blank_preceded(screen: Screen, rows: Seq<Seq<Cell>>, from: nat, to: nat)
    ensures
        screen.preceded(rows).blank_cells(from, to) == screen.blank_cells(from, to).preceded(rows),
        screen.preceded(rows).blank_lines(from, to) == screen.blank_lines(from, to).preceded(rows),
{
    let s = screen.preceded(rows);
    let row = screen.cursor.row as int;
    if 0 <= row < screen.lines.len() {
        assert(s.blank_cells(from, to).lines[row] =~= screen.blank_cells(from, to).lines[row]);
    }
    assert(s.blank_cells(from, to).lines =~= screen.blank_cells(from, to).lines);
    assert(s.blank_lines(from, to).lines =~= screen.blank_lines(from, to).lines);
}

proof fn lemma_chars_preceded(screen: Screen, rows: Seq<Seq<Cell>>, amount: nat)
    ensures
        screen.preceded(rows).insert_chars(amount) == screen.insert_chars(amount).preceded(rows),
        screen.preceded(rows).delete_chars(amount) == screen.delete_chars(amount).preceded(rows),
        screen.preceded(rows).erase_chars(amount) == screen.erase_chars(amount).preceded(rows),
{
    let s = screen.preceded(rows);
    let row = screen.cursor.row as int;
    if 0 <= row < screen.lines.len() {
        assert(s.insert_chars(amount).lines[row] =~= screen.insert_chars(amount).lines[row]);
        assert(s.delete_chars(amount).lines[row] =~= screen.delete_chars(amount).lines[row]);
    }
    assert(s.insert_chars(amount).lines =~= screen.insert_chars(amount).lines);
    assert(s.delete_chars(amount).lines =~= screen.delete_chars(amount).lines);
    lemma_blank_preceded(
        screen.mark_dirty(screen.cursor.col),
        rows,
        screen.cursor.col,
        screen.cursor.col + amount,
    );
}

proof fn lemma_erase_preceded(screen: Screen, rows: Seq<Seq<Cell>>, mode: nat)
    ensures
        screen.preceded(rows).erase_in_line(mode) == screen.erase_in_line(mode).preceded(rows),
        screen.preceded(rows).erase_in_display(mode) == screen.erase_in_display(mode).preceded(
            rows,
        ),
{
    let row = screen.cursor.row;
    let col = screen.cursor.col;
    lemma_blank_preceded(screen.mark_dirty(col), rows, col, screen.cols);
    lemma_blank_preceded(screen.mark_dirty(0), rows, 0, col + 1);
    lemma_blank_preceded(screen.mark_dirty(0), rows, 0, screen.cols);
    lemma_blank_preceded(screen.erase_in_line(0), rows, row + 1, screen.rows);
    lemma_blank_preceded(screen.erase_in_line(1), rows, 0, row);
    lemma_blank_preceded(screen, rows, 0, screen.rows);
}

proof fn lemma_linefeed_preceded(screen: Screen, rows: Seq<Seq<Cell>>)
    ensures
        screen.preceded(rows).linefeed() == screen.linefeed().preceded(rows),
        screen.preceded(rows).reverse_index() == screen.reverse_index().preceded(rows),
{
    lemma_scroll_up_preceded(screen, rows, 1);
    lemma_scroll_preceded(screen, rows, 1);
}

proof fn lemma_control_preceded(
    screen: Screen,
    rows: Seq<Seq<Cell>>,
    final_char: char,
    private: Option<char>,
    body: Seq<char>,
)
    ensures
        screen.preceded(rows).control(final_char, private, body) == screen.control(
            final_char,
            private,
            body,
        ).preceded(rows),
{
    let params = csi_numbers(body);
    let count = param(params, 0, 1);
    if final_char == 'S' {
        lemma_scroll_up_preceded(screen, rows, count);
    } else if final_char == 'T' || final_char == 'L' || final_char == 'M' {
        lemma_scroll_preceded(screen, rows, count);
    } else if final_char == '@' || final_char == 'P' || final_char == 'X' {
        lemma_chars_preceded(screen, rows, count);
    } else if final_char == 'J' || final_char == 'K' {
        lemma_erase_preceded(screen, rows, param(params, 0, 0));
    }
}

proof fn lemma_put_char_preceded(screen: Screen, rows: Seq<Seq<Cell>>, ch: char)
    ensures
        screen.preceded(rows).put_char(ch) == screen.put_char(ch).preceded(rows),
{
    lemma_linefeed_preceded(screen, rows);
    let start = screen.wrap();
    assert(screen.preceded(rows).wrap() == start.preceded(rows));
    lemma_linefeed_preceded(start.with_col(0), rows);
}

proof fn lemma_feed_normal_preceded(screen: Screen, rows: Seq<Seq<Cell>>, ch: char)
    ensures
        screen.preceded(rows).feed_normal(ch) == screen.feed_normal(ch).preceded(rows),
{
    lemma_linefeed_preceded(screen.cancel_wrap(), rows);
    lemma_put_char_preceded(screen, rows, ch);
}

proof fn lemma_feed_esc_preceded(screen: Screen, rows: Seq<Seq<Cell>>, ch: char)
    ensures
        screen.preceded(rows).feed_esc(ch) == screen.feed_esc(ch).preceded(rows),
{
    let s = screen.with_state(ParseState::Normal).cancel_wrap();
    if ch == 'D' || ch == 'M' {
        lemma_linefeed_preceded(s, rows);
    } else if ch == 'E' {
        lemma_linefeed_preceded(s.with_col(0), rows);
    }
}

proof fn lemma_feed_csi_preceded(screen: Screen, rows: Seq<Seq<Cell>>, ch: char)
    ensures
        screen.preceded(rows).feed_csi(ch) == screen.feed_csi(ch).preceded(rows),
{
    let seq = screen.csi.push(ch);
    let s = Screen { csi: Seq::empty(), state: ParseState::Normal, ..screen };
    lemma_control_preceded(s, rows, seq.last(), csi_private(seq), csi_body(seq));
    lemma_control_preceded(s.cancel_wrap(), rows, seq.last(), csi_private(seq), csi_body(seq));
}

proof fn lemma_feed_char_preceded(screen: Screen, rows: Seq<Seq<Cell>>, ch: char)
    ensures
        screen.preceded(rows).feed_char(ch) == screen.feed_char(ch).preceded(rows),
{
    reveal(Screen::feed_char);
    match screen.state {
        ParseState::Normal => lemma_feed_normal_preceded(screen, rows, ch),
        ParseState::Esc => lemma_feed_esc_preceded(screen, rows, ch),
        ParseState::Csi => lemma_feed_csi_preceded(screen, rows, ch),
        _ => {},
    }
}

/// The effect of output does not depend on the history: rows put in front of the history stay
/// there, and all else is the same.
pub proof fn history_in_front_changes_nothing(
    screen: Screen,
    rows: Seq<Seq<Cell>>,
    text: Seq<char>,
)
    ensures
        screen.preceded(rows).feed(text) == screen.feed(text).preceded(rows),
    decreases text.len(),
{
    if text.len() > 0 {
        history_in_front_changes_nothing(screen, rows, text.drop_last());
        lemma_feed_char_preceded(screen.feed(text.drop_last()), rows, text.last());
    }
}

/// A cell that shows a character in the plain style.
pub open spec fn plain_cell(ch: char) -> Cell {
    Cell { ch, style: plain_style(), wide_cont: false }
}

/// The second cell of a wide character in the plain style.
pub open spec fn plain_continuation() -> Cell {
    Cell { ch: ' ', style: plain_style(), wide_cont: true }
}

/// The cells that show a text in the plain style, two for a wide character.
pub open spec fn shown_cells(text: Seq<char>) -> Seq<Cell>
    decreases text.len(),
{
    if text.len() == 0 {
        Seq::empty()
    } else {
        let before = shown_cells(text.drop_last()).push(plain_cell(text.last()));
        if cell_columns(text.last()) == 2 {
            before.push(plain_continuation())
        } else {
            before
        }
    }
}

/// The line that shows a text from the first column on.
pub open spec fn shown_line(text: Seq<char>, cols: nat) -> Seq<Cell> {
    let cells = shown_cells(text);
    cells + blank_row((cols - cells.len()) as nat, plain_style())
}

/// Whether `ch` is a character that is shown in one or two columns; a blank takes up one.
pub open spec fn is_shown(ch: char) -> bool {
    &&& ch as u32 >= 32
    &&& ch as u32 != 127
    &&& cell_columns(ch) == 1 || cell_columns(ch) == 2 && ch != ' '
}

/// Lines as they are typed: one below the other, each begun at the first column.
pub open spec fn typed(lines: Seq<Seq<char>>) -> Seq<char>
    decreases lines.len(),
{
    if lines.len() == 0 {
        Seq::empty()
    } else if lines.len() == 1 {
        lines[0]
    } else {
        typed(lines.drop_last()) + seq!['\r', '\n'] + lines.last()
    }
}

/// Rows with one more character behind: in the last row, or at the start of the next one if
/// the last row has no room for it.
pub open spec fn with_char(rows: Seq<Seq<char>>, cols: nat, ch: char) -> Seq<Seq<char>> {
    if shown_cells(rows.last()).len() + cell_columns(ch) <= cols {
        rows.update(rows.len() - 1, rows.last().push(ch))
    } else {
        rows.push(seq![ch])
    }
}

/// The rows that a line takes up: each as much as there is room for, in as many rows as it
/// takes.
pub open spec fn pieces(text: Seq<char>, cols: nat) -> Seq<Seq<char>>
    decreases text.len(),
{
    if text.len() == 0 {
        seq![text]
    } else {
        with_char(pieces(text.drop_last(), cols), cols, text.last())
    }
}

/// The rows that some lines take up.
pub open spec fn all_pieces(lines: Seq<Seq<char>>, cols: nat) -> Seq<Seq<char>>
    decreases lines.len(),
{
    if lines.len() == 0 {
        Seq::empty()
    } else {
        all_pieces(lines.drop_last(), cols) + pieces(lines.last(), cols)
    }
}

/// The row at an index; an empty one behind the last.
pub open spec fn row_or_empty(rows: Seq<Seq<char>>, i: int) -> Seq<char> {
    if i < rows.len() {
        rows[i]
    } else {
        Seq::empty()
    }
}

/// How many of `count` rows a screen of so many rows has no place for.
pub open spec fn rows_beyond(count: nat, rows: nat) -> nat {
    if count > rows {
        (count - rows) as nat
    } else {
        0
    }
}

/// A screen that shows the last of these rows, with nothing below, and has the others
/// behind `history`; the cursor stands behind the last row.
pub open spec fn shows(screen: Screen, history: Seq<Seq<Cell>>, rows: Seq<Seq<char>>) -> bool {
    let beyond = rows_beyond(rows.len(), screen.rows);
    let columns = shown_cells(rows.last()).len();
    &&& screen.history == history + Seq::new(
        beyond,
        |i: int| trimmed_row(shown_line(rows[i], screen.cols)),
    )
    &&& screen.lines == Seq::new(
        screen.rows,
        |i: int| shown_line(row_or_empty(rows, beyond + i), screen.cols),
    )
    &&& screen.style == plain_style()
    &&& screen.state == ParseState::Normal
    &&& !screen.sync_active
    &&& screen.cursor.row == rows.len() - 1 - beyond
    &&& screen.cursor.col == min(columns, (screen.cols - 1) as nat)
    &&& screen.wrap_pending == (columns == screen.cols)
}

/// A text without the blanks at its end.
pub open spec fn unpadded(text: Seq<char>) -> Seq<char>
    decreases text.len(),
{
    if text.len() > 0 && text.last() == ' ' {
        unpadded(text.drop_last())
    } else {
        text
    }
}

/// Rows without the blanks at their ends, followed by empty ones up to `count` rows.
pub open spec fn filled_up(rows: Seq<Seq<char>>, count: nat) -> Seq<Seq<char>> {
    Seq::new(
        rows_beyond(rows.len(), count) + count,
        |i: int| unpadded(row_or_empty(rows, i)),
    )
}

/// Whether all characters of a text are shown.
pub open spec fn all_shown(text: Seq<char>) -> bool {
    forall|i: int| 0 <= i < text.len() ==> is_shown(#[trigger] text[i])
}

proof fn lemma_shown_line(text: Seq<char>, cols: nat, ch: char)
    requires
        shown_cells(text).len() + cell_columns(ch) <= cols,
        is_shown(ch),
    ensures
        ({
            let col = shown_cells(text).len() as int;
            let first = shown_line(text, cols).update(col, plain_cell(ch));
            shown_line(text.push(ch), cols) == (if cell_columns(ch) == 2 {
                first.update(col + 1, plain_continuation())
            } else {
                first
            })
        }),
        shown_cells(text.push(ch)).len() == shown_cells(text).len() + cell_columns(ch),
{
    let col = shown_cells(text).len() as int;
    let first = shown_line(text, cols).update(col, plain_cell(ch));
    assert(text.push(ch).drop_last() =~= text);
    assert(shown_line(text.push(ch), cols) =~= (if cell_columns(ch) == 2 {
        first.update(col + 1, plain_continuation())
    } else {
        first
    }));
}

proof fn lemma_shown_nothing(cols: nat)
    ensures
        shown_line(Seq::empty(), cols) == blank_row(cols, plain_style()),
{
    assert(shown_line(Seq::empty(), cols) =~= blank_row(cols, plain_style()));
}

proof fn lemma_shown_cells(text: Seq<char>)
    ensures
        cell_text(shown_cells(text)) == text,
    decreases text.len(),
{
    if text.len() > 0 {
        let before = text.drop_last();
        let cells = shown_cells(before).push(plain_cell(text.last()));
        lemma_shown_cells(before);
        assert(cells.drop_last() =~= shown_cells(before));
        assert(cells.push(plain_continuation()).drop_last() =~= cells);
        assert(cell_text(cells) == before.push(text.last()));
        assert(before.push(text.last()) =~= text);
    } else {
        assert(text =~= Seq::empty());
    }
}

proof fn lemma_padding_is_trimmed(cells: Seq<Cell>, count: nat)
    ensures
        trimmed_row(cells + blank_row(count, plain_style())) == trimmed_row(cells),
    decreases count,
{
    let row = cells + blank_row(count, plain_style());
    if count == 0 {
        assert(row =~= cells);
    } else {
        let less = (count - 1) as nat;
        lemma_padding_is_trimmed(cells, less);
        assert(row.drop_last() =~= cells + blank_row(less, plain_style()));
    }
}

proof fn lemma_trimmed_text(text: Seq<char>)
    requires
        all_shown(text),
    ensures
        cell_text(trimmed_row(shown_cells(text))) == unpadded(text),
    decreases text.len(),
{
    if text.len() > 0 {
        let before = text.drop_last();
        let cells = shown_cells(before).push(plain_cell(text.last()));
        assert(is_shown(text[text.len() - 1]));
        if text.last() == ' ' {
            assert forall|i: int| 0 <= i < before.len() implies is_shown(#[trigger] before[i]) by {
                assert(is_shown(text[i]));
            }
            lemma_trimmed_text(before);
            assert(cells.drop_last() =~= shown_cells(before));
        } else {
            lemma_shown_cells(text);
        }
    } else {
        assert(text =~= Seq::empty());
    }
}

proof fn lemma_shown_text(text: Seq<char>, cols: nat)
    requires
        all_shown(text),
    ensures
        row_text(shown_line(text, cols)) == unpadded(text),
{
    let cells = shown_cells(text);
    lemma_padding_is_trimmed(cells, (cols - cells.len()) as nat);
    lemma_trimmed_text(text);
}

proof fn lemma_shown_texts(screen: Screen, history: Seq<Seq<Cell>>, rows: Seq<Seq<char>>)
    requires
        shows(screen, history, rows),
        forall|i: int| 0 <= i < rows.len() ==> all_shown(#[trigger] rows[i]),
    ensures
        rows_text(screen.history) + rows_text(screen.lines) == rows_text(history) + filled_up(
            rows,
            screen.rows,
        ),
{
    let beyond = rows_beyond(rows.len(), screen.rows);
    let got = rows_text(screen.history) + rows_text(screen.lines);
    let want = rows_text(history) + filled_up(rows, screen.rows);
    assert(got.len() == want.len());
    assert forall|i: int| 0 <= i < got.len() implies got[i] == want[i] by {
        if i >= history.len() {
            let k = i - history.len();
            let text = row_or_empty(rows, k);
            let row = shown_line(text, screen.cols);
            lemma_shown_text(text, screen.cols);
            trimming_keeps_the_start(row);
            if k < beyond {
                assert(screen.history[i] == trimmed_row(row));
            } else {
                assert(screen.lines[k - beyond] == row);
            }
        }
    }
    assert(got =~= want);
}

proof fn lemma_shows_more(
    screen: Screen,
    history: Seq<Seq<Cell>>,
    rows: Seq<Seq<char>>,
    ch: char,
)
    requires
        shows(screen, history, rows),
        screen.rows >= 1,
        rows.len() >= 1,
        shown_cells(rows.last()).len() + cell_columns(ch) <= screen.cols,
        is_shown(ch),
    ensures
        shows(
            screen.feed_char(ch),
            history,
            rows.update(rows.len() - 1, rows.last().push(ch)),
        ),
        screen.feed_char(ch).rows == screen.rows,
        screen.feed_char(ch).cols == screen.cols,
{
    reveal(Screen::feed_char);
    let last = rows.last();
    let longer = rows.update(rows.len() - 1, last.push(ch));
    let beyond = rows_beyond(rows.len(), screen.rows);
    let before = shown_line(last, screen.cols);
    let after = shown_line(last.push(ch), screen.cols);
    let result = screen.feed_char(ch);
    assert(screen.line() == before);
    lemma_shown_line(last, screen.cols, ch);
    assert(result.lines == screen.lines.update(screen.cursor.row as int, after));
    assert(result.lines =~= Seq::new(
        screen.rows,
        |i: int| shown_line(row_or_empty(longer, beyond + i), screen.cols),
    ));
    assert(result.history =~= history + Seq::new(
        beyond,
        |i: int| trimmed_row(shown_line(longer[i], screen.cols)),
    ));
}

proof fn lemma_shows_break(screen: Screen, history: Seq<Seq<Cell>>, rows: Seq<Seq<char>>)
    requires
        shows(screen, history, rows),
        screen.rows >= 1,
        screen.cols >= 1,
        rows.len() >= 1,
    ensures
        ({
            let result = screen.feed_char('\r').feed_char('\n');
            &&& shows(result, history, rows.push(Seq::empty()))
            &&& result.rows == screen.rows
            &&& result.cols == screen.cols
        }),
{
    reveal(Screen::feed_char);
    let more = rows.push(Seq::empty());
    let beyond = rows_beyond(rows.len(), screen.rows);
    let beyond_more = rows_beyond(more.len(), screen.rows);
    let result = screen.feed_char('\r').feed_char('\n');
    let turned = screen.feed_char('\r').cancel_wrap();
    assert(result == turned.linefeed());
    lemma_shown_nothing(screen.cols);
    if rows.len() < screen.rows {
        assert(result.lines == screen.lines);
        assert(result.history == screen.history);
    } else {
        assert(result == turned.scroll_up(1).clean());
        assert(screen.lines[0] == shown_line(rows[beyond as int], screen.cols));
    }
    assert(result.lines =~= Seq::new(
        screen.rows,
        |i: int| shown_line(row_or_empty(more, beyond_more + i), screen.cols),
    ));
    assert(result.history =~= history + Seq::new(
        beyond_more,
        |i: int| trimmed_row(shown_line(more[i], screen.cols)),
    ));
}

proof fn lemma_shows_wrap(
    screen: Screen,
    history: Seq<Seq<Cell>>,
    rows: Seq<Seq<char>>,
    ch: char,
)
    requires
        shows(screen, history, rows),
        screen.rows >= 1,
        screen.cols >= cell_columns(ch),
        rows.len() >= 1,
        shown_cells(rows.last()).len() <= screen.cols,
        shown_cells(rows.last()).len() + cell_columns(ch) > screen.cols,
        is_shown(ch),
    ensures
        shows(screen.feed_char(ch), history, rows.push(seq![ch])),
        screen.feed_char(ch).rows == screen.rows,
        screen.feed_char(ch).cols == screen.cols,
{
    let broken = screen.feed_char('\r').feed_char('\n');
    let more = rows.push(Seq::empty());
    lemma_shows_break(screen, history, rows);
    lemma_shows_more(broken, history, more, ch);
    assert(broken.feed_char(ch) == screen.feed_char(ch)) by {
        reveal(Screen::feed_char);
    }
    assert(more.last().push(ch) =~= seq![ch]);
    assert(more.update(more.len() - 1, seq![ch]) =~= rows.push(seq![ch]));
}

/// Whether each row has room on the screen, and is shown.
spec fn rows_fit(rows: Seq<Seq<char>>, cols: nat) -> bool {
    forall|i: int|
        0 <= i < rows.len() ==> shown_cells(#[trigger] rows[i]).len() <= cols && all_shown(rows[i])
}

proof fn lemma_with_char(rows: Seq<Seq<char>>, cols: nat, ch: char)
    requires
        rows.len() >= 1,
        rows_fit(rows, cols),
        is_shown(ch),
        cell_columns(ch) <= cols,
    ensures
        with_char(rows, cols, ch).len() >= 1,
        rows_fit(with_char(rows, cols, ch), cols),
{
    let last = rows[rows.len() - 1];
    let after = with_char(rows, cols, ch);
    let own = after[after.len() - 1];
    assert(all_shown(last));
    assert(shown_cells(own).len() <= cols) by {
        if shown_cells(last).len() + cell_columns(ch) <= cols {
            lemma_shown_line(last, cols, ch);
        } else {
            lemma_shown_line(Seq::empty(), cols, ch);
            assert(Seq::empty().push(ch) =~= seq![ch]);
        }
    }
    assert forall|i: int| 0 <= i < after.len() implies shown_cells(#[trigger] after[i]).len()
        <= cols && all_shown(after[i]) by {
        if i < after.len() - 1 {
            assert(after[i] == rows[i]);
        }
    }
}

proof fn lemma_pieces(text: Seq<char>, cols: nat)
    requires
        all_shown(text),
        forall|i: int| 0 <= i < text.len() ==> cell_columns(#[trigger] text[i]) <= cols,
    ensures
        pieces(text, cols).len() >= 1,
        rows_fit(pieces(text, cols), cols),
    decreases text.len(),
{
    if text.len() > 0 {
        let before = text.drop_last();
        assert forall|i: int| 0 <= i < before.len() implies is_shown(#[trigger] before[i])
            && cell_columns(before[i]) <= cols by {
            assert(is_shown(text[i]));
        }
        lemma_pieces(before, cols);
        assert(is_shown(text[text.len() - 1]));
        lemma_with_char(pieces(before, cols), cols, text.last());
    } else {
        assert(pieces(text, cols) =~= seq![text]);
    }
}

/// Whether the characters of some lines are shown, and none is wider than the screen.
pub open spec fn lines_shown(lines: Seq<Seq<char>>, cols: nat) -> bool {
    forall|i: int, j: int|
        0 <= i < lines.len() && 0 <= j < lines[i].len() ==> is_shown(#[trigger] lines[i][j])
            && cell_columns(lines[i][j]) <= cols
}

proof fn lemma_all_pieces(lines: Seq<Seq<char>>, cols: nat)
    requires
        lines_shown(lines, cols),
    ensures
        lines.len() >= 1 ==> all_pieces(lines, cols).len() >= 1,
        rows_fit(all_pieces(lines, cols), cols),
    decreases lines.len(),
{
    if lines.len() > 0 {
        let before = lines.drop_last();
        let text = lines.last();
        let first = all_pieces(before, cols);
        let last = pieces(text, cols);
        assert forall|i: int, j: int| 0 <= i < before.len() && 0 <= j < before[i].len() implies
            is_shown(#[trigger] before[i][j]) && cell_columns(before[i][j]) <= cols by {
            assert(is_shown(lines[i][j]));
        }
        assert forall|j: int| 0 <= j < text.len() implies is_shown(#[trigger] text[j])
            && cell_columns(text[j]) <= cols by {
            assert(is_shown(lines[lines.len() - 1][j]));
        }
        lemma_all_pieces(before, cols);
        lemma_pieces(text, cols);
        assert forall|i: int| 0 <= i < (first + last).len() implies shown_cells(
            #[trigger] (first + last)[i],
        ).len() <= cols && all_shown((first + last)[i]) by {
            if i < first.len() {
                assert((first + last)[i] == first[i]);
            } else {
                assert((first + last)[i] == last[i - first.len()]);
            }
        }
    }
}

proof fn lemma_typed_more(lines: Seq<Seq<char>>, cols: nat)
    requires
        lines_shown(lines, cols),
        lines.len() >= 1,
        lines.last().len() >= 1,
    ensures
        ({
            let before = lines.update(lines.len() - 1, lines.last().drop_last());
            let ch = lines.last().last();
            &&& lines_shown(before, cols)
            &&& typed(lines) == typed(before).push(ch)
            &&& all_pieces(lines, cols) == with_char(all_pieces(before, cols), cols, ch)
        }),
{
    let last = lines.last();
    let text = last.drop_last();
    let before = lines.update(lines.len() - 1, text);
    let first = all_pieces(lines.drop_last(), cols);
    assert forall|i: int, j: int| 0 <= i < before.len() && 0 <= j < before[i].len() implies
        is_shown(#[trigger] before[i][j]) && cell_columns(before[i][j]) <= cols by {
        assert(is_shown(lines[i][j]));
    }
    assert forall|j: int| 0 <= j < text.len() implies is_shown(#[trigger] text[j])
        && cell_columns(text[j]) <= cols by {
        assert(is_shown(before[before.len() - 1][j]));
    }
    assert(lines.drop_last() =~= before.drop_last());
    assert(typed(lines) =~= typed(before).push(last.last()));
    lemma_pieces(text, cols);
    assert(first + with_char(pieces(text, cols), cols, last.last()) =~= with_char(
        first + pieces(text, cols),
        cols,
        last.last(),
    ));
}

proof fn lemma_typed_is_shown(
    rows: nat,
    cols: nat,
    history: Seq<Seq<Cell>>,
    lines: Seq<Seq<char>>,
)
    requires
        rows >= 1,
        cols >= 1,
        lines.len() >= 1,
        lines_shown(lines, cols),
    ensures
        ({
            let result = Screen::initial(rows, cols, history).feed(typed(lines));
            &&& result.rows == rows
            &&& result.cols == cols
            &&& shows(result, history, all_pieces(lines, cols))
        }),
    decreases lines.len(), lines.last().len(),
{
    let start = Screen::initial(rows, cols, history);
    let last = lines.last();
    if last.len() > 0 {
        let before = lines.update(lines.len() - 1, last.drop_last());
        let shown = all_pieces(before, cols);
        lemma_typed_more(lines, cols);
        lemma_typed_is_shown(rows, cols, history, before);
        lemma_all_pieces(before, cols);
        assert(typed(lines).drop_last() =~= typed(before));
        assert(is_shown(lines[lines.len() - 1][last.len() - 1]));
        if shown_cells(shown.last()).len() + cell_columns(last.last()) <= cols {
            lemma_shows_more(start.feed(typed(before)), history, shown, last.last());
        } else {
            assert(shown_cells(shown[shown.len() - 1]).len() <= cols);
            lemma_shows_wrap(start.feed(typed(before)), history, shown, last.last());
        }
    } else if lines.len() > 1 {
        let before = lines.drop_last();
        let text = typed(before);
        assert forall|i: int, j: int| 0 <= i < before.len() && 0 <= j < before[i].len() implies
            is_shown(#[trigger] before[i][j]) && cell_columns(before[i][j]) <= cols by {
            assert(is_shown(lines[i][j]));
        }
        lemma_typed_is_shown(rows, cols, history, before);
        lemma_all_pieces(before, cols);
        lemma_shows_break(start.feed(text), history, all_pieces(before, cols));
        assert(typed(lines) =~= text.push('\r').push('\n'));
        assert(text.push('\r').push('\n').drop_last() =~= text.push('\r'));
        assert(text.push('\r').drop_last() =~= text);
        assert(start.feed(text.push('\r')) == start.feed(text).feed_char('\r'));
        assert(last =~= Seq::empty());
        assert(all_pieces(lines, cols) =~= all_pieces(before, cols).push(Seq::empty()));
    } else {
        let shown = all_pieces(lines, cols);
        let beyond = rows_beyond(shown.len(), rows);
        assert(lines.drop_last() =~= Seq::empty());
        assert(last =~= Seq::empty());
        assert(all_pieces(lines.drop_last(), cols) =~= Seq::empty());
        assert(pieces(last, cols) =~= seq![Seq::<char>::empty()]);
        assert(shown =~= seq![Seq::<char>::empty()]);
        assert(typed(lines) =~= Seq::empty());
        lemma_shown_nothing(cols);
        assert(start.lines =~= Seq::new(
            rows,
            |i: int| shown_line(row_or_empty(shown, beyond + i), cols),
        ));
        assert(start.history =~= history + Seq::new(
            beyond,
            |i: int| trimmed_row(shown_line(shown[i], cols)),
        ));
    }
}

/// Lines that are typed on a blank screen are shown as they are, in the plain style, each in
/// as many rows as it takes; the rows that the screen has no place for go into the history.
/// The rendered text is that of the history before, then these rows, then empty ones down
/// to the end of the screen.
pub proof fn text_is_shown(
    rows: nat,
    cols: nat,
    history: Seq<Seq<Cell>>,
    lines: Seq<Seq<char>>,
)
    requires
        rows >= 1,
        cols >= 1,
        lines.len() >= 1,
        lines_shown(lines, cols),
    ensures
        ({
            let shown = all_pieces(lines, cols);
            let result = Screen::initial(rows, cols, history).feed(typed(lines));
            &&& result.rows == rows
            &&& result.cols == cols
            &&& shows(result, history, shown)
            &&& rows_text(result.history) + rows_text(result.lines) == rows_text(history)
                + filled_up(shown, rows)
        }),
{
    lemma_typed_is_shown(rows, cols, history, lines);
    lemma_all_pieces(lines, cols);
    lemma_shown_texts(
        Screen::initial(rows, cols, history).feed(typed(lines)),
        history,
        all_pieces(lines, cols),
    );
}

proof fn lemma_one_piece(text: Seq<char>, cols: nat)
    requires
        all_shown(text),
        shown_cells(text).len() <= cols,
    ensures
        pieces(text, cols) == seq![text],
    decreases text.len(),
{
    if text.len() > 0 {
        let before = text.drop_last();
        assert forall|i: int| 0 <= i < before.len() implies is_shown(#[trigger] before[i]) by {
            assert(is_shown(text[i]));
        }
        assert(is_shown(text[text.len() - 1]));
        lemma_one_piece(before, cols);
        assert(before.push(text.last()) =~= text);
        assert(pieces(text, cols) =~= seq![text]);
    }
}

/// Lines that the screen is wide enough for take up one row each.
pub proof fn short_lines_take_one_row(lines: Seq<Seq<char>>, cols: nat)
    requires
        lines_shown(lines, cols),
        forall|i: int| 0 <= i < lines.len() ==> shown_cells(#[trigger] lines[i]).len() <= cols,
    ensures
        all_pieces(lines, cols) == lines,
    decreases lines.len(),
{
    if lines.len() > 0 {
        let before = lines.drop_last();
        let text = lines.last();
        assert forall|i: int, j: int| 0 <= i < before.len() && 0 <= j < before[i].len() implies
            is_shown(#[trigger] before[i][j]) && cell_columns(before[i][j]) <= cols by {
            assert(is_shown(lines[i][j]));
        }
        assert forall|i: int| 0 <= i < before.len() implies shown_cells(#[trigger] before[i]).len()
            <= cols by {
            assert(before[i] == lines[i]);
        }
        assert forall|j: int| 0 <= j < text.len() implies is_shown(#[trigger] text[j]) by {
            assert(is_shown(lines[lines.len() - 1][j]));
        }
        short_lines_take_one_row(before, cols);
        lemma_one_piece(text, cols);
        assert(lines[lines.len() - 1] == text);
    }
    assert(all_pieces(lines, cols) =~= lines);
}

/// Making the screen larger keeps what it shows and the history, and adds nothing to the
/// history; blank rows come in below. The cursor stays, or goes into the first of the new
/// columns if a wrap was pending. Where the width stays, half a wide character in the last
/// column becomes a blank.
pub proof fn growing_keeps_content(screen: Screen, rows: nat, cols: nat)
    requires
        screen.wf(),
        rows >= screen.rows,
        cols >= screen.cols,
    ensures
        ({
            let grown = screen.resize(rows, cols);
            &&& grown.rows == rows
            &&& grown.cols == cols
            &&& forall|i: int, j: int|
                0 <= i < screen.rows && 0 <= j < screen.cols && j + 1 < cols
                    ==> #[trigger] grown.lines[i][j] == screen.lines[i][j]
            &&& grown.history.len() == screen.history.len()
            &&& forall|i: int, j: int|
                0 <= i < screen.history.len() && 0 <= j < screen.history[i].len() && j + 1 < cols
                    ==> #[trigger] grown.history[i][j] == screen.history[i][j]
            &&& forall|i: int|
                screen.rows <= i < rows ==> #[trigger] grown.lines[i] == blank_row(
                    cols,
                    screen.style,
                )
            &&& grown.style == screen.style
            &&& grown.cursor.row == screen.cursor.row
            &&& grown.cursor.col == screen.cursor.col || screen.wrap_pending && grown.cursor.col
                == screen.cursor.col + 1
            &&& cols > screen.cols && screen.wrap_pending ==> grown.cursor.col
                == screen.cursor.col + 1
        }),
{
    reveal(Screen::resize);
}

/// Making the screen larger keeps every row, all but the blanks at its end, where no row
/// ends with half a wide character in the last column of the new size.
pub proof fn growing_keeps_rows(screen: Screen, rows: nat, cols: nat)
    requires
        screen.wf(),
        rows >= screen.rows,
        cols >= screen.cols,
        forall|i: int|
            0 <= i < screen.history.len() ==> ends_whole(#[trigger] screen.history[i], cols),
        forall|i: int| 0 <= i < screen.rows ==> ends_whole(#[trigger] screen.lines[i], cols),
    ensures
        trimmed_rows(screen.resize(rows, cols).history) == trimmed_rows(screen.history),
        trimmed_rows(screen.resize(rows, cols).lines).take(screen.rows as int) == trimmed_rows(
            screen.lines,
        ),
        rows_text(screen.resize(rows, cols).history) == rows_text(screen.history),
        rows_text(screen.resize(rows, cols).lines).take(screen.rows as int) == rows_text(
            screen.lines,
        ),
{
    reveal(Screen::resize);
    let grown = screen.resize(rows, cols);
    if rows != screen.rows || cols != screen.cols {
        assert forall|i: int| 0 <= i < screen.history.len() implies trimmed_row(
            #[trigger] grown.history[i],
        ) == trimmed_row(screen.history[i]) by {
            filling_up_keeps_the_row(screen.history[i], cols, plain_style());
        }
        assert forall|i: int| 0 <= i < screen.rows implies trimmed_row(#[trigger] grown.lines[i])
            == trimmed_row(screen.lines[i]) by {
            filling_up_keeps_the_row(screen.lines[i], cols, screen.style);
        }
    }
    assert(grown.history.len() == screen.history.len());
    assert(trimmed_rows(grown.history) =~= trimmed_rows(screen.history));
    assert(trimmed_rows(grown.lines).take(screen.rows as int) =~= trimmed_rows(screen.lines));
    assert(rows_text(grown.history) =~= rows_text(screen.history));
    assert(rows_text(grown.lines).take(screen.rows as int) =~= rows_text(screen.lines));
}

/// Changing the size keeps a screen valid.
pub proof fn resize_keeps_validity(screen: Screen, rows: nat, cols: nat)
    requires
        screen.wf(),
    ensures
        screen.resize(rows, cols).wf(),
{
    reveal(Screen::resize);
    let resized = screen.resize(rows, cols);
    assert forall|i: int| 0 <= i < resized.history.len() implies (
    #[trigger] resized.history[i]).len() <= resized.cols by {
        let k = i - screen.history.len();
        if (resized.rows != screen.rows || resized.cols != screen.cols) && k >= 0 {
            trimming_keeps_the_start(fitted_row(screen.lines[k], resized.cols, screen.style));
        }
    }
}

/// During a synchronized update of the status area, a line feed on the last row moves
/// nothing above the last three rows, and puts nothing into the history.
pub proof fn status_scroll_keeps_main_rows(screen: Screen)
    requires
        screen.wf(),
        screen.in_status_area(),
    ensures
        screen.linefeed().history == screen.history,
        forall|i: int|
            0 <= i < screen.rows - 3 ==> #[trigger] screen.linefeed().lines[i] == screen.lines[i],
{
}

/// Control functions that move the cursor or change cells drop a pending wrap.
pub proof fn motion_cancels_wrap(screen: Screen, seq: Seq<char>)
    requires
        well_formed_csi(seq),
        cancels_wrap(seq.last()),
    ensures
        !screen.handle_csi(seq).wrap_pending,
{
}

/// A change of style leaves all but the style as it is, a pending wrap too.
pub proof fn renditions_change_the_style_only(screen: Screen, seq: Seq<char>)
    requires
        seq.len() > 0,
        seq.last() == 'm',
    ensures
        screen.handle_csi(seq) == (Screen { style: screen.handle_csi(seq).style, ..screen }),
{
}

/// Changing the size a second time to the same size does nothing.
pub proof fn resize_settles(screen: Screen, rows: nat, cols: nat)
    ensures
        screen.resize(rows, cols).resize(rows, cols) == screen.resize(rows, cols),
{
    reveal(Screen::resize);
}

/// Removing as many rows as have been inserted brings the rows back, but for those that
/// have been pushed beyond the bottom.
pub proof fn deleting_undoes_inserting_lines(screen: Screen, amount: nat)
    requires
        screen.wf(),
    ensures
        forall|i: int|
            0 <= i < screen.rows && (i < screen.cursor.row || i + amount < screen.rows)
                ==> #[trigger] screen.insert_lines(amount).delete_lines(amount).lines[i]
                == screen.lines[i],
{
}

/// Removing as many cells as have been inserted brings the line's cells back, but for those
/// that have been pushed beyond the last column.
pub proof fn deleting_undoes_inserting_chars(screen: Screen, amount: nat)
    requires
        screen.wf(),
    ensures
        forall|i: int|
            0 <= i < screen.cols && (i < screen.cursor.col || i + amount < screen.cols)
                ==> #[trigger] screen.insert_chars(amount).delete_chars(amount).line()[i]
                == screen.line()[i],
{
}

/// Making the screen lower moves its top rows into the history, in their order, trimmed, and
/// keeps the others; nothing is lost. The cursor stays on the screen.
pub proof fn shrinking_keeps_all_rows(screen: Screen, rows: nat)
    requires
        screen.wf(),
        1 <= rows < screen.rows,
        forall|i: int|
            0 <= i < screen.history.len() ==> ends_whole(#[trigger] screen.history[i], screen.cols),
        forall|i: int|
            0 <= i < screen.rows ==> ends_whole(#[trigger] screen.lines[i], screen.cols),
    ensures
        ({
            let lower = screen.resize(rows, screen.cols);
            let gone = screen.rows - rows;
            &&& lower.rows == rows
            &&& lower.cols == screen.cols
            &&& lower.history.len() == screen.history.len() + gone
            &&& forall|i: int|
                0 <= i < screen.history.len() ==> trimmed_row(#[trigger] lower.history[i])
                    == trimmed_row(screen.history[i])
            &&& forall|i: int|
                screen.history.len() <= i < lower.history.len() ==> #[trigger] lower.history[i]
                    == trimmed_row(screen.lines[i - screen.history.len()])
            &&& forall|i: int|
                0 <= i < rows ==> trimmed_row(#[trigger] lower.lines[i]) == trimmed_row(
                    screen.lines[i + gone],
                )
            &&& lower.cursor.row == min(screen.cursor.row, (rows - 1) as nat)
            &&& !screen.wrap_pending ==> lower.cursor.col == screen.cursor.col
        }),
{
    reveal(Screen::resize);
    let lower = screen.resize(rows, screen.cols);
    let gone = screen.rows - rows;
    assert forall|i: int| 0 <= i < screen.history.len() implies trimmed_row(
        #[trigger] lower.history[i],
    ) == trimmed_row(screen.history[i]) by {
        assert(ends_whole(screen.history[i], screen.cols));
        filling_up_keeps_the_row(screen.history[i], screen.cols, plain_style());
    }
    assert forall|i: int|
        screen.history.len() <= i < lower.history.len() implies #[trigger] lower.history[i]
        == trimmed_row(screen.lines[i - screen.history.len()]) by {
        let k = i - screen.history.len();
        assert(ends_whole(screen.lines[k], screen.cols));
        filling_up_keeps_the_row(screen.lines[k], screen.cols, screen.style);
    }
    assert forall|i: int| 0 <= i < rows implies trimmed_row(#[trigger] lower.lines[i])
        == trimmed_row(screen.lines[i + gone]) by {
        assert(ends_whole(screen.lines[i + gone], screen.cols));
        filling_up_keeps_the_row(screen.lines[i + gone], screen.cols, screen.style);
    }
}

/// Making the screen narrower cuts each row, and keeps what is left of the cut; only the last
/// column may lose half a wide character.
pub proof fn narrowing_cuts_the_rows(screen: Screen, cols: nat, row: int, col: int)
    requires
        screen.wf(),
        1 <= cols < screen.cols,
        0 <= row < screen.rows,
        0 <= col < cols - 1,
    ensures
        ({
            let narrow = screen.resize(screen.rows, cols);
            &&& narrow.rows == screen.rows
            &&& narrow.cols == cols
            &&& narrow.lines[row].len() == cols
            &&& narrow.lines[row][col] == screen.lines[row][col]
            &&& narrow.history.len() == screen.history.len()
            &&& narrow.cursor.row == screen.cursor.row
            &&& !screen.wrap_pending ==> narrow.cursor.col == min(
                screen.cursor.col,
                (cols - 1) as nat,
            )
            &&& narrow.style == screen.style
        }),
{
    reveal(Screen::resize);
}

} // verus!
