//! The core of a log viewer: a replayed log, wrapped to the width of the view, with a
//! position, a status and a search.

use crate::cell::{grid, rows_text, wrap_styled_line, wrapped, Cell};
use crate::replay::{
    going_on_keeps_history, no_size_change_is_left_due, offset_after, FileSignature, LogUpdate,
    Recording, Replay, ReplayFile,
};
use crate::screen::Screen;
use crate::selection::{
    answers, move_word_point, row_of, row_view, selected_text, selection_text, word_target,
    Selection, SelectionPoint, WordMotion,
};
use crate::terminal::{clamp, clamped, VirtualTerminal};
use crate::text::{
    chars_of, contains_text, decimal, fit_text, fitted, lowercase, occurs, push_chars, push_decimal,
    split, split_text, texts, to_lowercase,
};
use vstd::prelude::*;

verus! {

// Layout
// ------

/// A log wrapped to a width: each display row with the number of the log row that it is
/// part of, and for each log row the number of its first display row.
#[derive(Debug)]
pub struct LayoutCache {
    pub content_width: usize,
    /// How many of the log rows were in the terminal's history.
    pub history_count: usize,
    pub display: Vec<(usize, Vec<Cell>)>,
    pub first_display_by_logical: Vec<usize>,
}

/// The view of a layout.
#[verifier::ext_equal]
pub struct Layout {
    pub width: nat,
    pub history_count: nat,
    pub display: Seq<(nat, Seq<Cell>)>,
    pub first: Seq<nat>,
}

/// The views of display rows.
pub open spec fn display_view(display: Seq<(usize, Vec<Cell>)>) -> Seq<(nat, Seq<Cell>)> {
    Seq::new(display.len(), |i: int| (display[i].0 as nat, display[i].1@))
}

/// The views of row numbers.
pub open spec fn numbers_view(numbers: Seq<usize>) -> Seq<nat> {
    Seq::new(numbers.len(), |i: int| numbers[i] as nat)
}

impl View for LayoutCache {
    type V = Layout;

    open spec fn view(&self) -> Layout {
        Layout {
            width: self.content_width as nat,
            history_count: self.history_count as nat,
            display: display_view(self.display@),
            first: numbers_view(self.first_display_by_logical@),
        }
    }
}

/// Display rows that are part of log row `logical`.
pub open spec fn numbered(segments: Seq<Seq<Cell>>, logical: nat) -> Seq<(nat, Seq<Cell>)> {
    Seq::new(segments.len(), |i: int| (logical, segments[i]))
}

impl Layout {
    /// A layout without rows.
    pub open spec fn empty(width: nat) -> Layout {
        Layout { width, history_count: 0, display: Seq::empty(), first: Seq::empty() }
    }

    /// Adds the next log row.
    pub open spec fn add_row(self, row: Seq<Cell>) -> Layout {
        Layout {
            first: self.first.push(self.display.len()),
            display: self.display + numbered(wrapped(row, self.width), self.first.len()),
            ..self
        }
    }

    /// Adds log rows.
    pub open spec fn add_rows(self, rows: Seq<Seq<Cell>>) -> Layout
        decreases rows.len(),
    {
        if rows.len() == 0 {
            self
        } else {
            self.add_rows(rows.drop_last()).add_row(rows.last())
        }
    }

    /// Only the log rows that were in the history.
    pub open spec fn history_part(self) -> Layout {
        let count = self.history_count as int;
        Layout {
            display: if count < self.first.len() && self.first[count] <= self.display.len() {
                self.display.take(self.first[count] as int)
            } else {
                self.display
            },
            first: self.first.take(count),
            ..self
        }
    }

    /// The layout of all rows of a terminal.
    pub open spec fn of(screen: Screen, width: nat) -> Layout {
        Layout {
            history_count: screen.history.len(),
            ..Layout::empty(width).add_rows(screen.rendered_rows())
        }
    }

    /// Whether the rows that were in the history are laid out as the first rows of a
    /// terminal's history.
    #[verifier::opaque]
    pub open spec fn begins(self, screen: Screen) -> bool {
        let count = self.history_count;
        &&& count <= self.first.len()
        &&& count <= screen.history.len()
        &&& self.history_part() == (Layout {
            history_count: count,
            ..Layout::empty(self.width).add_rows(screen.history.take(count as int))
        })
    }

    /// The number of the display row behind those of log row `i`.
    pub open spec fn line_end(self, i: int) -> nat {
        if i + 1 < self.first.len() {
            self.first[i + 1]
        } else {
            self.display.len()
        }
    }

    /// Whether the display rows of log row `i` are the segments of a row, wrapped to the
    /// layout's width.
    pub open spec fn shows_line(self, i: int, row: Seq<Cell>) -> bool {
        &&& 0 <= i < self.first.len()
        &&& self.first[i] <= self.line_end(i) <= self.display.len()
        &&& self.display.subrange(self.first[i] as int, self.line_end(i) as int) == numbered(
            wrapped(row, self.width),
            i as nat,
        )
    }

    /// Continues the layout: the rows that were in the history are kept, the others are
    /// laid out anew.
    pub open spec fn continued(self, screen: Screen) -> Layout {
        Layout {
            history_count: screen.history.len(),
            ..self.history_part().add_rows(
                screen.rendered_rows().skip(self.history_count as int),
            )
        }
    }
}

proof fn lemma_add_rows(layout: Layout, first: Seq<Seq<Cell>>, second: Seq<Seq<Cell>>)
    ensures
        layout.add_rows(first).add_rows(second) == layout.add_rows(first + second),
    decreases second.len(),
{
    if second.len() == 0 {
        assert(first + second =~= first);
    } else {
        lemma_add_rows(layout, first, second.drop_last());
        assert((first + second).drop_last() =~= first + second.drop_last());
        assert((first + second).last() == second.last());
    }
}

proof fn lemma_added(layout: Layout, rows: Seq<Seq<Cell>>)
    ensures
        layout.add_rows(rows).width == layout.width,
        layout.add_rows(rows).history_count == layout.history_count,
        layout.add_rows(rows).first.len() == layout.first.len() + rows.len(),
        layout.first.is_prefix_of(layout.add_rows(rows).first),
        layout.display.is_prefix_of(layout.add_rows(rows).display),
        rows.len() > 0 ==> layout.add_rows(rows).first[layout.first.len() as int]
            == layout.display.len(),
    decreases rows.len(),
{
    if rows.len() > 0 {
        lemma_added(layout, rows.drop_last());
    }
}

fn append_wrapped_row(cache: &mut LayoutCache, row: &[Cell])
    ensures
        final(cache)@ == old(cache)@.add_row(row@),
{
    let ghost before = cache@;
    let width: usize = cache.content_width;
    let logical: usize = cache.first_display_by_logical.len();
    let start: usize = cache.display.len();
    cache.first_display_by_logical.push(start);
    let segments: Vec<Vec<Cell>> = wrap_styled_line(row, width);
    let ghost views = grid(segments@);
    let ghost shown = display_view(cache.display@);
    let mut i: usize = 0;
    while i < segments.len()
        invariant
            i <= segments@.len(),
            views == grid(segments@),
            cache.content_width == width,
            cache.history_count == before.history_count,
            numbers_view(cache.first_display_by_logical@) == before.first.push(start as nat),
            cache.display@.len() == shown.len() + i,
            forall|k: int|
                0 <= k < cache.display@.len() ==> {
                    &&& (#[trigger] cache.display@[k]).0 as nat == (if k < shown.len() {
                        shown[k].0
                    } else {
                        logical as nat
                    })
                    &&& cache.display@[k].1@ == (if k < shown.len() {
                        shown[k].1
                    } else {
                        views[k - shown.len()]
                    })
                },
        decreases segments@.len() - i,
    {
        let segment: Vec<Cell> = vstd::slice::slice_to_vec(segments[i].as_slice());
        cache.display.push((logical, segment));
        i += 1;
    }
    assert(display_view(cache.display@) =~= shown + numbered(views, logical as nat));
    assert(cache@ =~= before.add_row(row@));
}

/// Appends the rows from `from` on.
fn append_rows(cache: &mut LayoutCache, rows: &[Vec<Cell>], from: usize)
    requires
        from <= rows@.len(),
    ensures
        final(cache)@ == old(cache)@.add_rows(grid(rows@).skip(from as int)),
{
    let ghost before = cache@;
    let ghost views = grid(rows@).skip(from as int);
    let mut i: usize = from;
    assert(views.take(0) =~= Seq::<Seq<Cell>>::empty());
    while i < rows.len()
        invariant
            from <= i <= rows@.len(),
            views == grid(rows@).skip(from as int),
            cache@ == before.add_rows(views.take(i - from)),
        decreases rows@.len() - i,
    {
        proof {
            let next = views.take(i - from + 1);
            assert(next.drop_last() =~= views.take(i - from));
            assert(next.last() == rows@[i as int]@);
        }
        append_wrapped_row(cache, rows[i].as_slice());
        i += 1;
    }
    assert(views.take(i - from) =~= views);
}

/// The layout of all rows of a terminal.
fn full_layout(term: &VirtualTerminal, content_width: usize) -> (r: LayoutCache)
    ensures
        r@ == Layout::of(term@, content_width as nat),
{
    let mut cache = LayoutCache {
        content_width,
        history_count: 0,
        display: Vec::new(),
        first_display_by_logical: Vec::new(),
    };
    assert(cache@ =~= Layout::empty(content_width as nat));
    assert(term@.rendered_rows().skip(0) =~= term@.rendered_rows());
    continue_layout(&mut cache, term);
    cache
}

/// Lays out the rows of a terminal behind the first `history_count` of them.
fn continue_layout(cache: &mut LayoutCache, term: &VirtualTerminal)
    requires
        old(cache).history_count <= term@.history.len(),
    ensures
        final(cache)@ == (Layout {
            history_count: term@.history.len(),
            ..old(cache)@.add_rows(
                term@.rendered_rows().skip(old(cache).history_count as int),
            )
        }),
{
    let ghost before = cache@;
    let count: usize = cache.history_count;
    let history: &[Vec<Cell>] = term.history_rows();
    append_rows(cache, history, count);
    let screen_rows: Vec<Vec<Cell>> = term.trimmed_screen_rows();
    append_rows(cache, screen_rows.as_slice(), 0);
    let ghost done = cache@;
    cache.history_count = term.history_len();
    proof {
        let above = grid(history@).skip(count as int);
        let below = grid(screen_rows@).skip(0);
        assert(below =~= grid(screen_rows@));
        lemma_add_rows(before, above, below);
        assert(above + below =~= term@.rendered_rows().skip(count as int));
        assert(cache@ =~= (Layout { history_count: term@.history.len(), ..done }));
    }
}

/// Drops the rows that were not in the history.
fn cut_to_history(cache: &mut LayoutCache)
    requires
        old(cache)@.history_count <= old(cache)@.first.len(),
    ensures
        final(cache)@ == old(cache)@.history_part(),
        final(cache)@.first.len() == old(cache)@.history_count,
        final(cache).history_count == old(cache).history_count,
{
    let ghost before = cache@;
    let count: usize = cache.history_count;
    let keep: usize = if count < cache.first_display_by_logical.len() {
        cache.first_display_by_logical[count]
    } else {
        cache.display.len()
    };
    cache.display.truncate(keep);
    cache.first_display_by_logical.truncate(count);
    assert(cache@ =~= before.history_part());
}

// The last part of a path
// -----------------------

/// The last part that names something: empty parts and parts `.` name nothing, and `..`
/// at the end names no file.
pub open spec fn last_name(parts: Seq<Seq<char>>) -> Option<Seq<char>>
    decreases parts.len(),
{
    if parts.len() == 0 {
        None
    } else if parts.last().len() == 0 || parts.last() == seq!['.'] {
        last_name(parts.drop_last())
    } else if parts.last() == seq!['.', '.'] {
        None
    } else {
        Some(parts.last())
    }
}

/// The name of the file at a path.
pub open spec fn file_name(path: Seq<char>) -> Option<Seq<char>> {
    last_name(split(path, '/'))
}

pub(crate) fn find_file_name(path: &str) -> (r: Option<Vec<char>>)
    ensures
        match r {
            Some(name) => file_name(path@) == Some(name@),
            None => file_name(path@) is None,
        },
{
    let chars: Vec<char> = chars_of(path);
    let parts: Vec<Vec<char>> = split_text(chars.as_slice(), '/');
    let ghost views = texts(parts@);
    let mut i: usize = parts.len();
    assert(views.take(i as int) =~= views);
    while i > 0
        invariant
            i <= parts@.len(),
            views == texts(parts@),
            file_name(path@) == last_name(views.take(i as int)),
        decreases i,
    {
        let part: &Vec<char> = &parts[i - 1];
        assert(views.take(i as int).last() == part@);
        assert(views.take(i as int).drop_last() =~= views.take(i - 1));
        if part.len() == 0 || (part.len() == 1 && part[0] == '.') {
            assert(part@.len() == 1 ==> part@ =~= seq!['.']);
            i -= 1;
        } else if part.len() == 2 && part[0] == '.' && part[1] == '.' {
            assert(part@ =~= seq!['.', '.']);
            assert(part@ != seq!['.']);
            return None;
        } else {
            assert(part@ != seq!['.']);
            assert(part@ != seq!['.', '.']);
            return Some(vstd::slice::slice_to_vec(part.as_slice()));
        }
    }
    None
}

// Searching
// ---------

/// Whether a line holds the text looked for, in upper or lower case.
pub open spec fn line_matches(line: Seq<char>, target: Seq<char>) -> bool {
    occurs(lowercase(line), lowercase(target))
}

/// The first line from `from` on that holds the text looked for.
pub open spec fn first_match(lines: Seq<Seq<char>>, from: int, target: Seq<char>) -> Option<int>
    decreases lines.len() - from,
{
    if from >= lines.len() {
        None
    } else if line_matches(lines[from], target) {
        Some(from)
    } else {
        first_match(lines, from + 1, target)
    }
}

/// The last line before `to` that holds the text looked for.
pub open spec fn last_match(lines: Seq<Seq<char>>, to: int, target: Seq<char>) -> Option<int>
    decreases to,
{
    if to <= 0 {
        None
    } else if line_matches(lines[to - 1], target) {
        Some(to - 1)
    } else {
        last_match(lines, to - 1, target)
    }
}

fn holds(line: &String, target: &Vec<char>) -> (r: bool)
    ensures
        r == occurs(lowercase(line@), target@),
{
    let lower: String = to_lowercase(line.as_str());
    let chars: Vec<char> = chars_of(lower.as_str());
    contains_text(chars.as_slice(), target.as_slice())
}

fn find_match(lines: &Vec<String>, current: usize, term: &str, forward: bool) -> (r: Option<usize>)
    ensures
        match r {
            Some(idx) => {
                &&& search_hit(lines.deep_view(), current as int, term@, forward) == Some(
                    idx as int,
                )
                &&& idx < lines@.len()
            },
            None => search_hit(lines.deep_view(), current as int, term@, forward) is None,
        },
{
    let lower: String = to_lowercase(term);
    let target: Vec<char> = chars_of(lower.as_str());
    let ghost views = lines.deep_view();
    let total: usize = lines.len();
    if forward {
        let mut i: usize = if current < total {
            current + 1
        } else {
            total
        };
        while i < total
            invariant
                i <= total,
                total == lines@.len(),
                views == lines.deep_view(),
                target@ == lowercase(term@),
                search_hit(views, current as int, term@, forward) == first_match(
                    views,
                    i as int,
                    term@,
                ),
            decreases total - i,
        {
            assert(views[i as int] == lines@[i as int]@);
            if holds(&lines[i], &target) {
                return Some(i);
            }
            i += 1;
        }
        None
    } else {
        let mut i: usize = if current < total {
            current
        } else {
            total
        };
        while i > 0
            invariant
                i <= total,
                total == lines@.len(),
                views == lines.deep_view(),
                target@ == lowercase(term@),
                search_hit(views, current as int, term@, forward) == last_match(
                    views,
                    i as int,
                    term@,
                ),
            decreases i,
        {
            assert(views[i - 1] == lines@[i - 1]@);
            if holds(&lines[i - 1], &target) {
                return Some(i - 1);
            }
            i -= 1;
        }
        None
    }
}

/// The line that a search from line `current` leads to.
pub open spec fn search_hit(
    lines: Seq<Seq<char>>,
    current: int,
    target: Seq<char>,
    forward: bool,
) -> Option<int> {
    if forward {
        first_match(
            lines,
            if current < lines.len() {
                current + 1
            } else {
                lines.len() as int
            },
            target,
        )
    } else {
        last_match(
            lines,
            if current < lines.len() {
                current
            } else {
                lines.len() as int
            },
            target,
        )
    }
}

// The viewer
// ----------

/// A viewer of a log.
#[derive(Debug)]
pub struct ViewerCore {
    pub(crate) path: String,
    /// What the status line shows instead of the position, if it is not empty.
    pub status: String,
    /// Whether the view stays at the end while the log grows.
    pub follow: bool,
    pub search_term: Option<String>,
    pub last_search_forward: bool,
    /// The display row at the top of the view.
    pub top: usize,
    pub(crate) term: VirtualTerminal,
    pub(crate) replay: ReplayFile,
    pub(crate) layout_cache: Option<LayoutCache>,
    pub(crate) layout_stale: bool,
}

/// The state of a viewer.
#[verifier::ext_equal]
pub struct Viewer {
    pub path: Seq<char>,
    pub status: Seq<char>,
    pub follow: bool,
    pub search_term: Option<Seq<char>>,
    pub last_search_forward: bool,
    pub top: nat,
    /// The path that the log is read from.
    pub log_path: Seq<char>,
    /// The path that the size changes are read from.
    pub resize_path: Seq<char>,
    pub replay: Replay,
    pub signature: Option<FileSignature>,
    pub layout: Option<Layout>,
    pub stale: bool,
}

impl View for ViewerCore {
    type V = Viewer;

    open(crate) spec fn view(&self) -> Viewer {
        Viewer {
            path: self.path@,
            status: self.status@,
            follow: self.follow,
            search_term: match self.search_term {
                Some(term) => Some(term@),
                None => None,
            },
            last_search_forward: self.last_search_forward,
            top: self.top as nat,
            log_path: self.replay.path@,
            resize_path: self.replay.resize_path@,
            replay: self.replay.replay(self.term@),
            signature: self.replay.resize_signature,
            layout: match self.layout_cache {
                Some(cache) => Some(cache@),
                None => None,
            },
            stale: self.layout_stale,
        }
    }
}

/// The number of rows that show the log when the view has `total_rows` rows: all but the
/// one for the status, at least one.
pub open spec fn height(total_rows: nat) -> nat {
    if total_rows <= 2 {
        1
    } else {
        (total_rows - 1) as nat
    }
}

/// The width that the log is wrapped to: at least one column.
pub open spec fn wrap_width(content_width: nat) -> nat {
    if content_width == 0 {
        1
    } else {
        content_width
    }
}

impl Viewer {
    /// The terminal is valid, the size changes up to here have been carried out, and what is
    /// laid out is the log: a layout starts with the rows of the history, and one that is
    /// not out of date is that of all rows.
    pub open spec fn wf(self) -> bool {
        &&& self.replay.screen.wf()
        &&& self.replay.next <= self.replay.events.len()
        &&& !self.replay.has_due()
        &&& self.layout matches Some(layout) ==> {
            &&& layout.begins(self.screen())
            &&& self.stale || layout == Layout::of(self.screen(), layout.width)
        }
    }

    pub open spec fn screen(self) -> Screen {
        self.replay.screen
    }

    /// The text of each row of the log.
    pub open spec fn lines(self) -> Seq<Seq<char>> {
        rows_text(self.screen().history) + rows_text(self.screen().lines)
    }

    /// Brings the layout up to date: it is then that of all rows of the log.
    #[verifier::opaque]
    pub open spec fn ensured(self, content_width: nat) -> Viewer {
        Viewer {
            layout: Some(Layout::of(self.screen(), wrap_width(content_width))),
            stale: false,
            ..self
        }
    }

    /// The display rows.
    pub open spec fn display(self) -> Seq<(nat, Seq<Cell>)> {
        self.layout->0.display
    }

    /// The last display row that can be at the top.
    pub open spec fn last_top(self, total_rows: nat) -> nat {
        if self.display().len() <= height(total_rows) {
            0
        } else {
            (self.display().len() - height(total_rows)) as nat
        }
    }

    pub open spec fn with_top(self, top: nat) -> Viewer {
        Viewer { top, ..self }
    }

    /// Puts the end of the log at the bottom of the view.
    pub open spec fn at_end(self, total_rows: nat, content_width: nat) -> Viewer {
        let v = self.ensured(content_width);
        v.with_top(v.last_top(total_rows))
    }

    /// Keeps the top within the log.
    pub open spec fn bounded(self, total_rows: nat, content_width: nat) -> Viewer {
        let v = self.ensured(content_width);
        v.with_top(clamped(v.top as int, 0, v.last_top(total_rows) as int) as nat)
    }

    /// Moves the view; any movement ends following.
    pub open spec fn scrolled(self, amount: int, total_rows: nat, content_width: nat) -> Viewer {
        let v = self.ensured(content_width);
        Viewer {
            follow: self.follow && amount == 0,
            status: Seq::empty(),
            top: clamped(self.top + amount, 0, v.last_top(total_rows) as int) as nat,
            ..v
        }
    }

    /// The rows of the view: from the top on, filled up with empty rows.
    pub open spec fn view_rows(self, total_rows: nat) -> Seq<Seq<Cell>> {
        Seq::new(
            height(total_rows),
            |y: int|
                if self.top + y < self.display().len() {
                    self.display()[self.top + y].1
                } else {
                    Seq::empty()
                },
        )
    }

    /// A display row; rows beyond the end are empty.
    pub open spec fn row_cells(self, index: int) -> Seq<Cell> {
        if 0 <= index < self.display().len() {
            self.display()[index].1
        } else {
            Seq::empty()
        }
    }

    /// The display rows as a table.
    pub open spec fn table(self) -> Map<int, Seq<Cell>> {
        Map::new(
            |i: int| 0 <= i < self.display().len(),
            |i: int| self.display()[i].1,
        )
    }

    /// Moves the view as little as needed to show a display row.
    pub open spec fn showing(self, total_rows: nat, row: nat) -> Viewer {
        let rows = height(total_rows);
        if row < self.top {
            self.with_top(row)
        } else if row >= self.top + rows {
            self.with_top((row - (rows - 1)) as nat)
        } else {
            self
        }
    }

    /// The number of display rows up to the bottom of the view.
    pub open spec fn view_end(self, total_rows: nat) -> nat {
        if self.top + height(total_rows) < self.display().len() {
            self.top + height(total_rows)
        } else {
            self.display().len()
        }
    }

    /// The first display row in `[from, to)` that is not empty, or else `default`.
    pub open spec fn first_filled(self, from: int, to: int, default: int) -> int
        decreases to - from,
    {
        if from >= to {
            default
        } else if self.row_cells(from).len() > 0 {
            from
        } else {
            self.first_filled(from + 1, to, default)
        }
    }

    /// The last display row in `[from, to)` that is not empty, or else `default`.
    pub open spec fn last_filled(self, from: int, to: int, default: int) -> int
        decreases to - from,
    {
        if from >= to {
            default
        } else if self.row_cells(to - 1).len() > 0 {
            to - 1
        } else {
            self.last_filled(from, to - 1, default)
        }
    }

    /// The top row of the view, or the last row if the view is beyond the end.
    pub open spec fn top_row(self) -> nat {
        if self.top < self.display().len() {
            self.top
        } else if self.display().len() > 0 {
            (self.display().len() - 1) as nat
        } else {
            0
        }
    }

    /// The log row at the top of the view.
    pub open spec fn top_line(self) -> nat {
        let display = self.display();
        if display.len() == 0 {
            0
        } else if self.top < display.len() {
            display[self.top as int].0
        } else {
            display.last().0
        }
    }

    /// The log row that a search leads to.
    pub open spec fn hit(self, term: Seq<char>, forward: bool, content_width: nat) -> Option<int> {
        search_hit(self.lines(), self.ensured(content_width).top_line() as int, term, forward)
    }

    /// Puts what a search leads to at the top, as far as the log allows; this ends
    /// following. Without a hit, nothing moves.
    #[verifier::opaque]
    pub open spec fn searched(
        self,
        term: Seq<char>,
        forward: bool,
        total_rows: nat,
        content_width: nat,
    ) -> Viewer {
        let v = self.ensured(content_width);
        match self.hit(term, forward, content_width) {
            Some(idx) => Viewer {
                top: clamped(
                    v.layout->0.first[idx] as int,
                    0,
                    v.last_top(total_rows) as int,
                ) as nat,
                follow: false,
                ..v
            },
            None => v,
        }
    }

    /// Searches for the last search term again, and says in the status what came of it.
    #[verifier::opaque]
    pub open spec fn search_repeated(
        self,
        forward: bool,
        total_rows: nat,
        content_width: nat,
    ) -> Viewer {
        match self.search_term {
            None => Viewer { status: "No previous search"@, ..self },
            Some(term) => {
                let v = Viewer { last_search_forward: forward, ..self };
                Viewer {
                    status: if v.hit(term, forward, content_width) is Some {
                        "/"@ + term
                    } else {
                        "Pattern not found: "@ + term
                    },
                    ..v.searched(term, forward, total_rows, content_width)
                }
            },
        }
    }

    /// The part of the log up to the bottom of the view, in percent.
    pub open spec fn percent(self, total_rows: nat) -> nat {
        let count = self.display().len();
        if count == 0 {
            100
        } else {
            let percent = ((self.top + height(total_rows)) * 100) / count;
            if percent < 100 {
                percent
            } else {
                100
            }
        }
    }

    /// The status that tells the position.
    #[verifier::opaque]
    pub open spec fn position_text(self, total_rows: nat) -> Seq<char> {
        let count = self.display().len();
        (if self.follow {
            "FOLLOW"@
        } else {
            "PAUSED"@
        }) + "  "@ + (match file_name(self.path) {
            Some(name) => name,
            None => "viewer"@,
        }) + "  "@ + decimal(self.top + 1) + "/"@ + decimal(
            if count == 0 {
                1
            } else {
                count
            },
        ) + "  "@ + decimal(self.percent(total_rows)) + "%"@
    }

    /// The status line: the given text, or the status, or else the position.
    pub open spec fn status_line(
        self,
        total_rows: nat,
        status_width: nat,
        override_text: Option<Seq<char>>,
    ) -> Seq<char> {
        fitted(
            match override_text {
                Some(text) => text,
                None => if self.status.len() == 0 {
                    self.position_text(total_rows)
                } else {
                    self.status
                },
            },
            status_width,
        )
    }

    /// A viewer of a log that has just been replayed.
    pub open spec fn opened(
        path: Seq<char>,
        follow: bool,
        replay: Replay,
        signature: Option<FileSignature>,
    ) -> Viewer {
        Viewer {
            path,
            status: Seq::empty(),
            follow,
            search_term: None,
            last_search_forward: true,
            top: 0,
            log_path: path,
            resize_path: path + ".resize"@,
            replay,
            signature,
            layout: None,
            stale: true,
        }
    }

    /// Replays the log for a terminal of another size. The view goes to the end if it
    /// follows the log, otherwise it stays within it.
    #[verifier::opaque]
    pub open spec fn resized(
        self,
        rows: nat,
        cols: nat,
        total_rows: nat,
        content_width: nat,
        recording: Recording,
    ) -> Viewer {
        let screen = self.screen().resize(rows, cols);
        let v = Viewer {
            replay: Replay::of(recording.bytes@, recording.events@, screen.rows, screen.cols),
            signature: recording.signature,
            layout: None,
            stale: true,
            ..self
        };
        if self.follow {
            v.at_end(total_rows, content_width)
        } else {
            v.bounded(total_rows, content_width)
        }
    }

    /// The replay after an update.
    pub open spec fn replay_updated(self, update: LogUpdate) -> Viewer {
        Viewer {
            replay: match update {
                LogUpdate::Replaced(recording) => Replay::of(
                    recording.bytes@,
                    recording.events@,
                    self.screen().rows,
                    self.screen().cols,
                ),
                LogUpdate::Unchanged => self.replay,
                LogUpdate::Appended(bytes) => self.replay.feed_bytes(bytes@),
            },
            signature: match update {
                LogUpdate::Replaced(recording) => recording.signature,
                _ => self.signature,
            },
            ..self
        }
    }

    /// The number of bytes replayed after an update.
    pub open spec fn polled_offset(self, update: LogUpdate) -> nat {
        offset_after(self.replay.offset, update)
    }

    /// Whether the log only grows with an update: nothing in it has been replaced, and no
    /// size change has been carried out.
    pub open spec fn only_grows(self, update: LogUpdate) -> bool {
        update is Appended && self.replay_updated(update).replay.next == self.replay.next
    }

    /// Takes in an update of the log. If it brings anything, the layout is out of date, and
    /// the view goes to the end if it follows the log. A layout of rows that may not be
    /// those of the log any more is forgotten.
    #[verifier::opaque]
    pub open spec fn updated(
        self,
        update: LogUpdate,
        total_rows: nat,
        content_width: nat,
    ) -> Viewer {
        let v = self.replay_updated(update);
        if ReplayFile::update_changes(update) {
            let w = Viewer {
                layout: if self.only_grows(update) {
                    v.layout
                } else {
                    None
                },
                stale: true,
                ..v
            };
            if self.follow {
                w.at_end(total_rows, content_width)
            } else {
                w
            }
        } else {
            v
        }
    }
}

/// Where the top comes to be when it moves by `amount`, between the start and `last`.
fn moved_top(top: usize, amount: i128, last: usize) -> (r: usize)
    ensures
        r == clamped(top + amount, 0, last as int),
{
    if amount >= 0 {
        if top >= last || amount >= (last - top) as i128 {
            last
        } else {
            top + amount as usize
        }
    } else if amount < -(top as i128) {
        0
    } else {
        let back: usize = (-amount) as usize;
        let moved: usize = top - back;
        if moved > last {
            last
        } else {
            moved
        }
    }
}

impl ViewerCore {
    /// Opens a log that has been read, on a terminal of the given size.
    pub fn new(
        path: String,
        source_rows: usize,
        source_cols: usize,
        follow: bool,
        recording: Recording,
    ) -> (r: Self)
        ensures
            r@.wf(),
            r@ == Viewer::opened(
                path@,
                follow,
                Replay::of(
                    recording.bytes@,
                    recording.events@,
                    if source_rows == 0 {
                        1
                    } else {
                        source_rows as nat
                    },
                    if source_cols == 0 {
                        1
                    } else {
                        source_cols as nat
                    },
                ),
                recording.signature,
            ),
    {
        let mut term: VirtualTerminal = VirtualTerminal::new(source_rows, source_cols);
        let mut replay: ReplayFile = ReplayFile::new(path.clone());
        proof {
            no_size_change_is_left_due(
                replay.replay(term@),
                recording.bytes@,
                recording.events@,
                term@.rows,
                term@.cols,
            );
        }
        replay.replay_all(&mut term, recording);
        ViewerCore {
            path,
            status: String::new(),
            follow,
            search_term: None,
            last_search_forward: true,
            top: 0,
            term,
            replay,
            layout_cache: None,
            layout_stale: true,
        }
    }

    /// The path of the log.
    pub fn path(&self) -> (r: &str)
        ensures
            r@ == self@.path,
    {
        self.path.as_str()
    }

    /// The terminal that the log is replayed on.
    pub fn term(&self) -> (r: &VirtualTerminal)
        ensures
            r@ == self@.screen(),
    {
        &self.term
    }

    /// How far the log has been replayed.
    pub fn replay(&self) -> (r: &ReplayFile)
        ensures
            r.replay(self@.screen()) == self@.replay,
            r@.path == self@.log_path,
            r@.resize_path == self@.resize_path,
            r@.signature == self@.signature,
    {
        &self.replay
    }

    /// The text of each row of the log.
    pub fn lines(&self) -> (r: Vec<String>)
        ensures
            r.deep_view() == self@.lines(),
    {
        self.term.rendered_lines()
    }

    /// The number of rows that show the log when the view has `total_rows` rows.
    pub fn content_height(total_rows: usize) -> (r: usize)
        ensures
            r == height(total_rows as nat),
            r >= 1,
    {
        if total_rows <= 2 {
            1
        } else {
            total_rows - 1
        }
    }

    /// Forgets the layout.
    pub fn drop_layout_cache(&mut self)
        ensures
            old(self)@.wf() ==> final(self)@.wf(),
            final(self)@ == (Viewer { layout: None, stale: true, ..old(self)@ }),
    {
        self.layout_cache = None;
        self.layout_stale = true;
        assert(self@ =~= (Viewer { layout: None, stale: true, ..old(self)@ }));
    }

    /// Takes note that the layout is out of date.
    pub fn invalidate_layout(&mut self)
        ensures
            old(self)@.wf() ==> final(self)@.wf(),
            final(self)@ == (Viewer { stale: true, ..old(self)@ }),
    {
        self.layout_stale = true;
        assert(self@ =~= (Viewer { stale: true, ..old(self)@ }));
    }

    /// Brings the layout up to date.
    pub fn ensure_layout(&mut self, content_width: usize)
        requires
            old(self)@.wf(),
        ensures
            final(self)@.wf(),
            final(self)@ == old(self)@.ensured(content_width as nat),
            final(self)@.layout is Some,
    {
        proof {
            reveal(Viewer::ensured);
        }
        let width: usize = if content_width == 0 {
            1
        } else {
            content_width
        };
        let ghost before = self@;
        let ghost screen = self.term@;
        let mut known: Option<LayoutCache> = None;
        std::mem::swap(&mut known, &mut self.layout_cache);
        let cache: LayoutCache = match known {
            Some(cache) => {
                if cache.content_width == width {
                    if !self.layout_stale {
                        self.layout_cache = Some(cache);
                        assert(self@ =~= before);
                        return;
                    }
                    let mut kept: LayoutCache = cache;
                    let ghost layout = kept@;
                    proof {
                        continuing_is_laying_out_anew(layout, screen);
                        reveal(Layout::begins);
                    }
                    cut_to_history(&mut kept);
                    continue_layout(&mut kept, &self.term);
                    assert(kept@ =~= layout.continued(screen));
                    kept
                } else {
                    full_layout(&self.term, width)
                }
            },
            None => full_layout(&self.term, width),
        };
        proof {
            lemma_layout_begins(screen, width as nat);
        }
        let ghost layout = cache@;
        self.layout_cache = Some(cache);
        self.layout_stale = false;
        assert(self@ =~= (Viewer { layout: Some(layout), stale: false, ..before }));
    }

    pub(crate) fn display_count(&self) -> (r: usize)
        requires
            self@.layout is Some,
        ensures
            r == self@.display().len(),
    {
        match &self.layout_cache {
            Some(cache) => cache.display.len(),
            None => 0,
        }
    }

    pub(crate) fn last_top(&self, total_rows: usize) -> (r: usize)
        requires
            self@.layout is Some,
        ensures
            r == self@.last_top(total_rows as nat),
    {
        let count: usize = self.display_count();
        let rows: usize = ViewerCore::content_height(total_rows);
        if count <= rows {
            0
        } else {
            count - rows
        }
    }

    pub(crate) fn set_top(&mut self, top: usize)
        requires
            old(self)@.wf(),
        ensures
            final(self)@.wf(),
            final(self)@ == old(self)@.with_top(top as nat),
    {
        self.top = top;
        assert(self@ =~= old(self)@.with_top(top as nat));
    }

    /// Replays the log, as it has been read again, for a terminal of another size.
    pub fn resize_source(
        &mut self,
        source_rows: usize,
        source_cols: usize,
        total_rows: usize,
        content_width: usize,
        recording: Recording,
    )
        requires
            old(self)@.wf(),
        ensures
            final(self)@.wf(),
            final(self)@ == old(self)@.resized(
                source_rows as nat,
                source_cols as nat,
                total_rows as nat,
                content_width as nat,
                recording,
            ),
    {
        proof {
            reveal(Viewer::resized);
        }
        let ghost before = self@;
        self.term.resize(source_rows, source_cols);
        self.replay.replay_all(&mut self.term, recording);
        self.drop_layout_cache();
        let ghost screen = before.screen().resize(source_rows as nat, source_cols as nat);
        proof {
            no_size_change_is_left_due(
                before.replay,
                recording.bytes@,
                recording.events@,
                screen.rows,
                screen.cols,
            );
        }
        assert(self@ =~= (Viewer {
            replay: Replay::of(recording.bytes@, recording.events@, screen.rows, screen.cols),
            signature: recording.signature,
            layout: None,
            stale: true,
            ..before
        }));
        if self.follow {
            self.jump_to_end(total_rows, content_width);
        } else {
            self.keep_top(total_rows, content_width);
        }
    }

    /// Takes in an update of the log. Returns whether it brought anything.
    pub fn poll(&mut self, total_rows: usize, content_width: usize, update: LogUpdate) -> (r: bool)
        requires
            old(self)@.wf(),
            old(self)@.polled_offset(update) <= u64::MAX,
        ensures
            final(self)@.wf(),
            r == ReplayFile::update_changes(update),
            final(self)@ == old(self)@.updated(update, total_rows as nat, content_width as nat),
    {
        proof {
            reveal(Viewer::updated);
        }
        let ghost before = self@;
        let replaced: bool = match &update {
            LogUpdate::Replaced(_) => true,
            _ => false,
        };
        let next: usize = self.replay.next_resize_index;
        proof {
            lemma_updated(before, update);
        }
        let changed: bool = self.replay.poll(&mut self.term, update);
        assert(self@ =~= before.replay_updated(update));
        if changed {
            if replaced || self.replay.next_resize_index != next {
                self.drop_layout_cache();
            } else {
                self.invalidate_layout();
            }
            if self.follow {
                self.jump_to_end(total_rows, content_width);
            }
        }
        changed
    }

    /// The last display row that can be at the top.
    pub fn max_top(&mut self, total_rows: usize, content_width: usize) -> (r: usize)
        requires
            old(self)@.wf(),
        ensures
            final(self)@.wf(),
            final(self)@ == old(self)@.ensured(content_width as nat),
            final(self)@.layout is Some,
            r == final(self)@.last_top(total_rows as nat),
    {
        self.ensure_layout(content_width);
        self.last_top(total_rows)
    }

    /// Puts the end of the log at the bottom of the view.
    pub fn jump_to_end(&mut self, total_rows: usize, content_width: usize)
        requires
            old(self)@.wf(),
        ensures
            final(self)@.wf(),
            final(self)@ == old(self)@.at_end(total_rows as nat, content_width as nat),
    {
        let top: usize = self.max_top(total_rows, content_width);
        self.set_top(top);
    }

    pub(crate) fn keep_top(&mut self, total_rows: usize, content_width: usize)
        requires
            old(self)@.wf(),
        ensures
            final(self)@.wf(),
            final(self)@ == old(self)@.bounded(total_rows as nat, content_width as nat),
            final(self)@.layout is Some,
            final(self)@.top <= final(self)@.last_top(total_rows as nat),
    {
        let last: usize = self.max_top(total_rows, content_width);
        let top: usize = clamp(self.top, 0, last);
        self.set_top(top);
    }

    /// The rows of the view, filled up with empty rows.
    pub fn visible_rows(&mut self, total_rows: usize, content_width: usize) -> (r: Vec<Vec<Cell>>)
        requires
            old(self)@.wf(),
        ensures
            final(self)@.wf(),
            final(self)@ == old(self)@.bounded(total_rows as nat, content_width as nat),
            grid(r@) == final(self)@.view_rows(total_rows as nat),
    {
        self.keep_top(total_rows, content_width);
        let rows: usize = ViewerCore::content_height(total_rows);
        let count: usize = self.display_count();
        let ghost v = self@;
        let mut out: Vec<Vec<Cell>> = Vec::new();
        let mut y: usize = 0;
        while y < rows
            invariant
                y <= rows,
                rows == height(total_rows as nat),
                self@ == v,
                v.layout is Some,
                count == v.display().len(),
                out@.len() == y,
                forall|k: int|
                    0 <= k < y ==> (#[trigger] out@[k])@ == (if v.top + k < v.display().len() {
                        v.display()[v.top + k].1
                    } else {
                        Seq::empty()
                    }),
            decreases rows - y,
        {
            let cells: Vec<Cell> = if self.top < count && y < count - self.top {
                match self.layout_row(self.top + y) {
                    Some(cells) => cells,
                    None => Vec::new(),
                }
            } else {
                Vec::new()
            };
            out.push(cells);
            y += 1;
        }
        assert(grid(out@) =~= v.view_rows(total_rows as nat));
        out
    }

    /// The number of display rows.
    pub fn display_len(&mut self, content_width: usize) -> (r: usize)
        requires
            old(self)@.wf(),
        ensures
            final(self)@.wf(),
            final(self)@ == old(self)@.ensured(content_width as nat),
            final(self)@.layout is Some,
            r == final(self)@.display().len(),
    {
        self.ensure_layout(content_width);
        self.display_count()
    }

    /// A display row of the layout.
    pub fn layout_row(&self, index: usize) -> (r: Option<Vec<Cell>>)
        requires
            self@.layout is Some,
        ensures
            match r {
                Some(cells) => index < self@.display().len() && cells@
                    == self@.display()[index as int].1,
                None => index >= self@.display().len(),
            },
    {
        match &self.layout_cache {
            Some(cache) => {
                if index < cache.display.len() {
                    Some(vstd::slice::slice_to_vec(cache.display[index].1.as_slice()))
                } else {
                    None
                }
            },
            None => None,
        }
    }

    /// A display row of the layout; rows beyond the end are empty.
    pub fn row_cells(&self, index: usize) -> (r: Vec<Cell>)
        requires
            self@.layout is Some,
        ensures
            r@ == self@.row_cells(index as int),
    {
        match self.layout_row(index) {
            Some(cells) => cells,
            None => {
                let none: Vec<Cell> = Vec::new();
                assert(none@ =~= self@.row_cells(index as int));
                none
            },
        }
    }

    /// Moves the view as little as needed to show a display row.
    pub fn show_row(&mut self, total_rows: usize, row: usize)
        requires
            old(self)@.wf(),
        ensures
            final(self)@.wf(),
            final(self)@ == old(self)@.showing(total_rows as nat, row as nat),
    {
        let rows: usize = ViewerCore::content_height(total_rows);
        if row < self.top {
            self.set_top(row);
        } else if row - self.top >= rows {
            self.set_top(row - (rows - 1));
        }
    }

    /// The number of display rows up to the bottom of the view.
    pub fn view_end(&self, total_rows: usize) -> (r: usize)
        requires
            self@.layout is Some,
        ensures
            r == self@.view_end(total_rows as nat),
    {
        let rows: usize = ViewerCore::content_height(total_rows);
        let count: usize = self.display_count();
        if self.top < count && rows < count - self.top {
            self.top + rows
        } else {
            count
        }
    }

    /// The first display row in `[from, to)` that is not empty, or else `default`.
    pub fn first_filled(&self, from: usize, to: usize, default: usize) -> (r: usize)
        requires
            self@.layout is Some,
        ensures
            r == self@.first_filled(from as int, to as int, default as int),
            r == default || from <= r < to,
    {
        let mut i: usize = from;
        while i < to
            invariant
                from <= i,
                self@.layout is Some,
                self@.first_filled(from as int, to as int, default as int) == self@.first_filled(
                    i as int,
                    to as int,
                    default as int,
                ),
            decreases to - i,
        {
            if self.row_cells(i).len() > 0 {
                return i;
            }
            i += 1;
        }
        default
    }

    /// The last display row in `[from, to)` that is not empty, or else `default`.
    pub fn last_filled(&self, from: usize, to: usize, default: usize) -> (r: usize)
        requires
            self@.layout is Some,
        ensures
            r == self@.last_filled(from as int, to as int, default as int),
            r == default || from <= r < to,
    {
        let mut i: usize = to;
        while i > from
            invariant
                i <= to,
                self@.layout is Some,
                self@.last_filled(from as int, to as int, default as int) == self@.last_filled(
                    from as int,
                    i as int,
                    default as int,
                ),
            decreases i,
        {
            if self.row_cells(i - 1).len() > 0 {
                return i - 1;
            }
            i -= 1;
        }
        default
    }

    /// The top row of the view, or the last row if the view is beyond the end.
    pub fn top_row(&self) -> (r: usize)
        requires
            self@.layout is Some,
        ensures
            r == self@.top_row(),
    {
        let count: usize = self.display_count();
        if self.top < count {
            self.top
        } else if count > 0 {
            count - 1
        } else {
            0
        }
    }

    /// Moves by words over the display rows.
    pub fn word_from(&self, start: SelectionPoint, motion: WordMotion) -> (r: SelectionPoint)
        requires
            self@.layout is Some,
        ensures
            r == word_target(self@.table(), self@.display().len() as int, start, motion),
            r == start || r.row < self@.display().len(),
    {
        let row_at = |row: usize| -> (cells: Option<Vec<Cell>>)
            requires
                self@.layout is Some,
            ensures
                row_view(cells) == row_of(self@.table(), row as int),
            { self.layout_row(row) };
        let ghost table = self@.table();
        let count: usize = self.display_count();
        assert(answers(row_at, table, 0, count as int));
        move_word_point(start, count, row_at, motion)
    }

    /// The text that is selected in the display rows.
    pub fn selected_text(&self, selection: Selection) -> (r: String)
        requires
            self@.layout is Some,
        ensures
            r@ == selected_text(selection, self@.table()),
    {
        let row_at = |row: usize| -> (cells: Option<Vec<Cell>>)
            requires
                self@.layout is Some,
            ensures
                row_view(cells) == row_of(self@.table(), row as int),
            { self.layout_row(row) };
        let ghost table = self@.table();
        assert(answers(
            row_at,
            table,
            selection.start().row as int,
            selection.end().row + 1,
        ));
        selection_text(selection, row_at)
    }

    /// A display row.
    pub fn display_row(&mut self, index: usize, content_width: usize) -> (r: Option<Vec<Cell>>)
        requires
            old(self)@.wf(),
        ensures
            final(self)@.wf(),
            final(self)@ == old(self)@.ensured(content_width as nat),
            final(self)@.layout is Some,
            match r {
                Some(cells) => index < final(self)@.display().len() && cells@
                    == final(self)@.display()[index as int].1,
                None => index >= final(self)@.display().len(),
            },
    {
        self.ensure_layout(content_width);
        self.layout_row(index)
    }

    /// The status line.
    pub fn status_text(&mut self, total_rows: usize, content_width: usize, status_width: usize)
        -> (r: String)
        requires
            old(self)@.wf(),
        ensures
            final(self)@.wf(),
            final(self)@ == old(self)@.bounded(total_rows as nat, content_width as nat),
            r@ == final(self)@.status_line(total_rows as nat, status_width as nat, None),
    {
        self.status_text_with_override(total_rows, content_width, status_width, None)
    }

    fn position_text(&self, total_rows: usize) -> (r: String)
        requires
            self@.layout is Some,
            self@.top <= self@.last_top(total_rows as nat),
        ensures
            r@ == self@.position_text(total_rows as nat),
    {
        proof {
            reveal(Viewer::position_text);
        }
        let count: usize = self.display_count();
        let rows: usize = ViewerCore::content_height(total_rows);
        let percent: u64 = if count == 0 {
            100
        } else {
            let value: u128 = ((self.top as u128 + rows as u128) * 100) / (count as u128);
            assert(value == ((self@.top + height(total_rows as nat)) * 100) / (count as nat));
            if value < 100 {
                value as u64
            } else {
                100
            }
        };
        let mut text: String = String::new();
        if self.follow {
            text.append("FOLLOW");
        } else {
            text.append("PAUSED");
        }
        text.append("  ");
        match find_file_name(self.path.as_str()) {
            Some(name) => push_chars(&mut text, name.as_slice()),
            None => text.append("viewer"),
        }
        text.append("  ");
        push_decimal(&mut text, self.top as u64 + 1);
        text.append("/");
        push_decimal(
            &mut text,
            if count == 0 {
                1
            } else {
                count as u64
            },
        );
        text.append("  ");
        push_decimal(&mut text, percent);
        text.append("%");
        assert(text@ =~= self@.position_text(total_rows as nat));
        text
    }

    /// The status line, or another text in its place.
    pub fn status_text_with_override(
        &mut self,
        total_rows: usize,
        content_width: usize,
        status_width: usize,
        override_text: Option<&str>,
    ) -> (r: String)
        requires
            old(self)@.wf(),
        ensures
            final(self)@.wf(),
            final(self)@ == old(self)@.bounded(total_rows as nat, content_width as nat),
            r@ == final(self)@.status_line(
                total_rows as nat,
                status_width as nat,
                match override_text {
                    Some(text) => Some(text@),
                    None => None,
                },
            ),
    {
        self.keep_top(total_rows, content_width);
        self.status_line(total_rows, status_width, override_text)
    }

    /// The status line, or another text in its place, for a view that is up to date.
    pub fn status_line(
        &self,
        total_rows: usize,
        status_width: usize,
        override_text: Option<&str>,
    ) -> (r: String)
        requires
            self@.layout is Some,
            self@.top <= self@.last_top(total_rows as nat),
        ensures
            r@ == self@.status_line(
                total_rows as nat,
                status_width as nat,
                match override_text {
                    Some(text) => Some(text@),
                    None => None,
                },
            ),
    {
        match override_text {
            Some(text) => fit_text(text, status_width),
            None => {
                if self.status.as_str().is_empty() {
                    let text: String = self.position_text(total_rows);
                    fit_text(text.as_str(), status_width)
                } else {
                    fit_text(self.status.as_str(), status_width)
                }
            },
        }
    }

    fn scroll_by(&mut self, amount: i128, total_rows: usize, content_width: usize)
        requires
            old(self)@.wf(),
        ensures
            final(self)@.wf(),
            final(self)@ == old(self)@.scrolled(
                amount as int,
                total_rows as nat,
                content_width as nat,
            ),
    {
        proof {
            reveal(Viewer::ensured);
        }
        let ghost before = self@;
        let last: usize = self.max_top(total_rows, content_width);
        if amount != 0 {
            self.follow = false;
        }
        self.top = moved_top(self.top, amount, last);
        self.status = String::new();
        assert(self@ =~= before.scrolled(amount as int, total_rows as nat, content_width as nat));
    }

    /// Moves the view by some rows.
    pub fn scroll(&mut self, amount: isize, total_rows: usize, content_width: usize)
        requires
            old(self)@.wf(),
        ensures
            final(self)@.wf(),
            final(self)@ == old(self)@.scrolled(
                amount as int,
                total_rows as nat,
                content_width as nat,
            ),
    {
        self.scroll_by(amount as i128, total_rows, content_width);
    }

    /// Moves the view by some pages.
    pub fn page(&mut self, amount: isize, total_rows: usize, content_width: usize)
        requires
            old(self)@.wf(),
        ensures
            final(self)@.wf(),
            final(self)@ == old(self)@.scrolled(
                amount * height(total_rows as nat),
                total_rows as nat,
                content_width as nat,
            ),
    {
        let step: usize = ViewerCore::content_height(total_rows);
        proof {
            lemma_product_fits(amount, step);
        }
        self.scroll_by(amount as i128 * step as i128, total_rows, content_width);
    }

    /// Moves the view by some half pages, of at least one row.
    pub fn half_page(&mut self, amount: isize, total_rows: usize, content_width: usize)
        requires
            old(self)@.wf(),
        ensures
            final(self)@.wf(),
            final(self)@ == old(self)@.scrolled(
                amount * half_height(total_rows as nat),
                total_rows as nat,
                content_width as nat,
            ),
    {
        let half: usize = ViewerCore::content_height(total_rows) / 2;
        let step: usize = if half == 0 {
            1
        } else {
            half
        };
        proof {
            lemma_product_fits(amount, step);
        }
        self.scroll_by(amount as i128 * step as i128, total_rows, content_width);
    }

    fn top_line(&self) -> (r: usize)
        requires
            self@.layout is Some,
        ensures
            r == self@.top_line(),
    {
        match &self.layout_cache {
            Some(cache) => {
                let count: usize = cache.display.len();
                if count == 0 {
                    0
                } else if self.top < count {
                    cache.display[self.top].0
                } else {
                    cache.display[count - 1].0
                }
            },
            None => 0,
        }
    }

    /// Searches for a text from the line at the top on, and puts what it finds at the top.
    /// Returns whether it found anything.
    pub fn search(&mut self, term: &str, forward: bool, total_rows: usize, content_width: usize)
        -> (r: bool)
        requires
            old(self)@.wf(),
        ensures
            final(self)@.wf(),
            r == (old(self)@.hit(term@, forward, content_width as nat) is Some),
            final(self)@ == old(self)@.searched(
                term@,
                forward,
                total_rows as nat,
                content_width as nat,
            ),
    {
        proof {
            reveal(Viewer::searched);
        }
        let ghost before = self@;
        let lines: Vec<String> = self.lines();
        let last: usize = self.max_top(total_rows, content_width);
        let current: usize = self.top_line();
        match find_match(&lines, current, term, forward) {
            Some(idx) => {
                proof {
                    reveal(Viewer::ensured);
                    lemma_layout_begins(before.screen(), wrap_width(content_width as nat));
                }
                let mapped: usize = match &self.layout_cache {
                    Some(cache) => cache.first_display_by_logical[idx],
                    None => 0,
                };
                self.top = clamp(mapped, 0, last);
                self.follow = false;
                assert(self@ =~= before.searched(
                    term@,
                    forward,
                    total_rows as nat,
                    content_width as nat,
                ));
                true
            },
            None => false,
        }
    }

    /// Searches for the last search term again. Returns whether it found anything.
    pub fn repeat_search(&mut self, forward: bool, total_rows: usize, content_width: usize) -> (r:
        bool)
        requires
            old(self)@.wf(),
        ensures
            final(self)@.wf(),
            r == (match old(self)@.search_term {
                Some(term) => (Viewer { last_search_forward: forward, ..old(self)@ }).hit(
                    term,
                    forward,
                    content_width as nat,
                ) is Some,
                None => false,
            }),
            final(self)@ == old(self)@.search_repeated(
                forward,
                total_rows as nat,
                content_width as nat,
            ),
    {
        proof {
            reveal(Viewer::search_repeated);
        }
        let ghost before = self@;
        let term: String = match &self.search_term {
            Some(term) => term.clone(),
            None => {
                self.status = "No previous search".to_owned();
                assert(self@ =~= (Viewer { status: "No previous search"@, ..before }));
                return false;
            },
        };
        self.last_search_forward = forward;
        let ghost turned = Viewer { last_search_forward: forward, ..before };
        assert(self@ =~= turned);
        let found: bool = self.search(term.as_str(), forward, total_rows, content_width);
        let mut text: String = if found {
            "/".to_owned()
        } else {
            "Pattern not found: ".to_owned()
        };
        text.append(term.as_str());
        self.status = text;
        assert(self@ =~= before.search_repeated(
            forward,
            total_rows as nat,
            content_width as nat,
        ));
        found
    }
}

/// Half the height of the view, at least one row.
pub open spec fn half_height(total_rows: nat) -> nat {
    if height(total_rows) < 2 {
        1
    } else {
        height(total_rows) / 2
    }
}

proof fn lemma_product_fits(amount: isize, step: usize)
    ensures
        i128::MIN <= amount * step <= i128::MAX,
{
    assert(-0x8000_0000_0000_0000 <= amount <= 0x7fff_ffff_ffff_ffff);
    assert(0 <= step <= 0xffff_ffff_ffff_ffff);
    assert(-0x8000_0000_0000_0000 * 0xffff_ffff_ffff_ffff <= amount * step <= 0x7fff_ffff_ffff_ffff
        * 0xffff_ffff_ffff_ffff) by (nonlinear_arith)
        requires
            -0x8000_0000_0000_0000 <= amount <= 0x7fff_ffff_ffff_ffff,
            0 <= step <= 0xffff_ffff_ffff_ffff,
    ;
}

// Laws
// ----

proof fn lemma_count_is_kept(layout: Layout, count: nat, rows: Seq<Seq<Cell>>)
    ensures
        (Layout { history_count: count, ..layout }).add_rows(rows) == (Layout {
            history_count: count,
            ..layout.add_rows(rows)
        }),
    decreases rows.len(),
{
    if rows.len() > 0 {
        lemma_count_is_kept(layout, count, rows.drop_last());
    }
}

/// Continuing a layout that starts with the rows of a terminal's history gives what laying
/// out all rows anew gives.
pub proof fn continuing_is_laying_out_anew(layout: Layout, screen: Screen)
    requires
        layout.begins(screen),
    ensures
        layout.continued(screen) == Layout::of(screen, layout.width),
{
    reveal(Layout::begins);
    let count = layout.history_count;
    let empty = Layout::empty(layout.width);
    let above = screen.history.take(count as int);
    let rest = screen.rendered_rows().skip(count as int);
    let kept = empty.add_rows(above);
    lemma_count_is_kept(kept, count, rest);
    assert(above + rest =~= screen.rendered_rows());
    lemma_add_rows(empty, above, rest);
}

proof fn lemma_layout_begins(screen: Screen, width: nat)
    ensures
        Layout::of(screen, width).begins(screen),
        Layout::of(screen, width).width == width,
        Layout::of(screen, width).first.len() == screen.rendered_rows().len(),
{
    reveal(Layout::begins);
    let count = screen.history.len();
    let empty = Layout::empty(width);
    let below = crate::cell::trimmed_rows(screen.lines);
    let kept = empty.add_rows(screen.history);
    lemma_add_rows(empty, screen.history, below);
    lemma_added(empty, screen.history);
    lemma_added(kept, below);
    lemma_added(empty, screen.rendered_rows());
    let layout = Layout::of(screen, width);
    assert(layout.first.take(count as int) =~= kept.first);
    if below.len() > 0 {
        assert(layout.display.take(layout.first[count as int] as int) =~= kept.display);
    }
    assert(layout.history_part() =~= (Layout { history_count: count, ..kept }));
    assert(screen.history.take(count as int) =~= screen.history);
}

/// A layout that starts with the rows of the history still does so when the history has
/// grown.
pub proof fn layout_begins_a_longer_log(layout: Layout, earlier: Screen, later: Screen)
    requires
        layout.begins(earlier),
        earlier.history.is_prefix_of(later.history),
    ensures
        layout.begins(later),
{
    reveal(Layout::begins);
    let count = layout.history_count as int;
    assert(later.history.take(count) =~= earlier.history.take(count));
}

proof fn lemma_updated(viewer: Viewer, update: LogUpdate)
    requires
        viewer.wf(),
    ensures
        !viewer.replay_updated(update).replay.has_due(),
        !ReplayFile::update_changes(update) ==> viewer.replay_updated(update) == viewer,
        viewer.only_grows(update) && viewer.layout is Some ==> viewer.layout->0.begins(
            viewer.replay_updated(update).screen(),
        ),
{
    let rows = viewer.screen().rows;
    let cols = viewer.screen().cols;
    match update {
        LogUpdate::Replaced(recording) => {
            no_size_change_is_left_due(
                viewer.replay,
                recording.bytes@,
                recording.events@,
                rows,
                cols,
            );
        },
        LogUpdate::Unchanged => {},
        LogUpdate::Appended(bytes) => {
            no_size_change_is_left_due(viewer.replay, bytes@, Seq::empty(), rows, cols);
            going_on_keeps_history(viewer.replay, bytes@);
            if viewer.only_grows(update) && viewer.layout is Some {
                layout_begins_a_longer_log(
                    viewer.layout->0,
                    viewer.screen(),
                    viewer.replay_updated(update).screen(),
                );
            }
        },
    }
    assert(!ReplayFile::update_changes(update) ==> viewer.replay_updated(update) =~= viewer);
}

proof fn lemma_lines_shown(width: nat, rows: Seq<Seq<Cell>>, i: int)
    requires
        0 <= i < rows.len(),
    ensures
        Layout::empty(width).add_rows(rows).shows_line(i, rows[i]),
        Layout::empty(width).add_rows(rows).first[0] == 0,
    decreases rows.len(),
{
    let empty = Layout::empty(width);
    let before = empty.add_rows(rows.drop_last());
    let layout = empty.add_rows(rows);
    lemma_added(empty, rows.drop_last());
    lemma_added(empty, rows);
    let segments = wrapped(rows.last(), width);
    assert(layout == before.add_row(rows.last()));
    if rows.len() > 1 {
        lemma_lines_shown(width, rows.drop_last(), 0);
        assert(layout.first[0] == before.first[0]);
    }
    if i == rows.len() - 1 {
        assert(layout.display.subrange(before.display.len() as int, layout.display.len() as int)
            =~= numbered(segments, i as nat));
    } else {
        lemma_lines_shown(width, rows.drop_last(), i);
        assert(layout.line_end(i) == before.line_end(i));
        assert(layout.display.subrange(layout.first[i] as int, layout.line_end(i) as int)
            =~= before.display.subrange(before.first[i] as int, before.line_end(i) as int));
    }
}

/// What is displayed is the log: the display rows are those of its lines, one line after
/// another from the first to the last, each wrapped to the width.
pub proof fn every_line_is_displayed(viewer: Viewer, content_width: nat)
    requires
        viewer.wf(),
    ensures
        ({
            let rows = viewer.screen().rendered_rows();
            let layout = viewer.ensured(content_width).layout->0;
            &&& viewer.ensured(content_width).layout is Some
            &&& layout.width == wrap_width(content_width)
            &&& layout.first.len() == rows.len()
            &&& rows.len() > 0
            &&& layout.first[0] == 0
            &&& forall|i: int| 0 <= i < rows.len() ==> layout.shows_line(i, #[trigger] rows[i])
        }),
{
    reveal(Viewer::ensured);
    let width = wrap_width(content_width);
    let rows = viewer.screen().rendered_rows();
    let laid = Layout::empty(width).add_rows(rows);
    let layout = viewer.ensured(content_width).layout->0;
    lemma_added(Layout::empty(width), rows);
    lemma_lines_shown(width, rows, 0);
    assert forall|i: int| 0 <= i < rows.len() implies layout.shows_line(i, #[trigger] rows[i]) by {
        lemma_lines_shown(width, rows, i);
        assert(layout.line_end(i) == laid.line_end(i));
    }
}

/// Bringing the layout up to date a second time, or keeping the top within the log a second
/// time, changes nothing.
pub proof fn settling_settles(viewer: Viewer, total_rows: nat, content_width: nat)
    ensures
        viewer.ensured(content_width).layout is Some,
        viewer.ensured(content_width).ensured(content_width) == viewer.ensured(content_width),
        viewer.bounded(total_rows, content_width).ensured(content_width) == viewer.bounded(
            total_rows,
            content_width,
        ),
        viewer.bounded(total_rows, content_width).bounded(total_rows, content_width)
            == viewer.bounded(total_rows, content_width),
{
    reveal(Viewer::ensured);
}

/// The view never leaves the log: once the layout is up to date, the top row is at most the
/// last one that still fills the view.
pub proof fn view_stays_within_the_log(
    viewer: Viewer,
    amount: int,
    total_rows: nat,
    content_width: nat,
)
    ensures
        viewer.scrolled(amount, total_rows, content_width).top <= viewer.ensured(
            content_width,
        ).last_top(total_rows),
        viewer.bounded(total_rows, content_width).top <= viewer.ensured(content_width).last_top(
            total_rows,
        ),
        viewer.at_end(total_rows, content_width).top == viewer.ensured(content_width).last_top(
            total_rows,
        ),
{
}

/// Following: a viewer that follows the log shows its end after every update that brings
/// anything.
pub proof fn following_shows_the_end(
    viewer: Viewer,
    update: LogUpdate,
    total_rows: nat,
    content_width: nat,
)
    requires
        viewer.follow,
        ReplayFile::update_changes(update),
    ensures
        ({
            let v = viewer.updated(update, total_rows, content_width);
            &&& v.follow
            &&& v.layout is Some
            &&& v.top == v.last_top(total_rows)
        }),
{
    reveal(Viewer::updated);
    reveal(Viewer::ensured);
}

proof fn lemma_first_match(lines: Seq<Seq<char>>, from: int, target: Seq<char>)
    requires
        0 <= from,
    ensures
        match first_match(lines, from, target) {
            Some(hit) => {
                &&& from <= hit < lines.len()
                &&& line_matches(lines[hit], target)
                &&& forall|k: int| from <= k < hit ==> !line_matches(#[trigger] lines[k], target)
            },
            None => forall|k: int|
                from <= k < lines.len() ==> !line_matches(#[trigger] lines[k], target),
        },
    decreases lines.len() - from,
{
    if from < lines.len() {
        lemma_first_match(lines, from + 1, target);
    }
}

proof fn lemma_last_match(lines: Seq<Seq<char>>, to: int, target: Seq<char>)
    requires
        to <= lines.len(),
    ensures
        match last_match(lines, to, target) {
            Some(hit) => {
                &&& 0 <= hit < to
                &&& line_matches(lines[hit], target)
                &&& forall|k: int| hit < k < to ==> !line_matches(#[trigger] lines[k], target)
            },
            None => forall|k: int| 0 <= k < to ==> !line_matches(#[trigger] lines[k], target),
        },
    decreases to,
{
    if to > 0 {
        lemma_last_match(lines, to - 1, target);
    }
}

/// A search leads to the nearest line in its direction that holds the text, and to none
/// only if no line in that direction does.
pub proof fn search_finds_the_nearest(
    lines: Seq<Seq<char>>,
    current: int,
    target: Seq<char>,
    forward: bool,
)
    requires
        0 <= current,
    ensures
        match search_hit(lines, current, target, forward) {
            Some(hit) => {
                &&& 0 <= hit < lines.len()
                &&& line_matches(lines[hit], target)
                &&& forward ==> hit > current
                &&& !forward ==> hit < current
                &&& forall|k: int|
                    0 <= k < lines.len() && (current < k < hit || hit < k < current)
                        ==> !line_matches(#[trigger] lines[k], target)
            },
            None => forall|k: int|
                0 <= k < lines.len() && (forward && k > current || !forward && k < current)
                    ==> !line_matches(#[trigger] lines[k], target),
        },
{
    let total = lines.len() as int;
    if current < total {
        lemma_first_match(lines, current + 1, target);
        lemma_last_match(lines, current, target);
    } else {
        lemma_first_match(lines, total, target);
        lemma_last_match(lines, total, target);
    }
}

/// A search puts the line that it leads to into view, at the top wherever the log goes on
/// far enough; the line is the nearest one in the direction of the search. Without such a
/// line nothing moves. Either way the status tells what came of it.
pub proof fn repeated_search_shows_the_nearest(
    viewer: Viewer,
    forward: bool,
    total_rows: nat,
    content_width: nat,
)
    requires
        viewer.wf(),
        viewer.search_term is Some,
    ensures
        ({
            let term = viewer.search_term->0;
            let lines = viewer.lines();
            let current = viewer.ensured(content_width).top_line() as int;
            let after = viewer.search_repeated(forward, total_rows, content_width);
            match viewer.hit(term, forward, content_width) {
                Some(hit) => {
                    let row = after.layout->0.first[hit];
                    &&& 0 <= hit < lines.len()
                    &&& line_matches(lines[hit], term)
                    &&& forward ==> hit > current
                    &&& !forward ==> hit < current
                    &&& forall|k: int|
                        0 <= k < lines.len() && (current < k < hit || hit < k < current)
                            ==> !line_matches(#[trigger] lines[k], term)
                    &&& after.display()[row as int].0 == hit
                    &&& after.top <= row < after.top + height(total_rows)
                    &&& row <= after.last_top(total_rows) ==> after.top == row
                    &&& !after.follow
                    &&& after.status == "/"@ + term
                },
                None => {
                    &&& forall|k: int|
                        0 <= k < lines.len() && (forward && k > current || !forward && k < current)
                            ==> !line_matches(#[trigger] lines[k], term)
                    &&& after.top == viewer.top
                    &&& after.follow == viewer.follow
                    &&& after.status == "Pattern not found: "@ + term
                },
            }
        }),
{
    reveal(Viewer::search_repeated);
    reveal(Viewer::searched);
    reveal(Viewer::ensured);
    let term = viewer.search_term->0;
    let turned = Viewer { last_search_forward: forward, ..viewer };
    let current = viewer.ensured(content_width).top_line() as int;
    search_finds_the_nearest(viewer.lines(), current, term, forward);
    every_line_is_displayed(viewer, content_width);
    assert(turned.hit(term, forward, content_width) == viewer.hit(term, forward, content_width));
    if let Some(hit) = viewer.hit(term, forward, content_width) {
        let layout = viewer.ensured(content_width).layout->0;
        let row = viewer.screen().rendered_rows()[hit];
        assert(layout.shows_line(hit, row));
        let shown = layout.display.subrange(
            layout.first[hit] as int,
            layout.line_end(hit) as int,
        );
        assert(shown.len() == wrapped(row, layout.width).len());
        assert(shown[0].0 == hit);
    }
}

/// A log always has a display row.
pub proof fn a_log_has_rows(viewer: Viewer, content_width: nat)
    requires
        viewer.wf(),
    ensures
        viewer.ensured(content_width).display().len() > 0,
{
    every_line_is_displayed(viewer, content_width);
    let layout = viewer.ensured(content_width).layout->0;
    let first = viewer.screen().rendered_rows()[0];
    assert(layout.shows_line(0, first));
    assert(layout.display.subrange(layout.first[0] as int, layout.line_end(0) as int).len() > 0);
}

/// Whether two letters are the same, whatever their case.
pub open spec fn same_letter(a: char, b: char) -> bool {
    ||| a == b
    ||| 'A' <= a <= 'Z' && b as u32 == a as u32 + 32
    ||| 'A' <= b <= 'Z' && a as u32 == b as u32 + 32
}

/// A line holds a text exactly if the text stands somewhere in it, letter by letter, in upper
/// or lower case. This is for lines and texts in ASCII.
pub proof fn lines_match_in_either_case(line: Seq<char>, target: Seq<char>)
    requires
        forall|i: int| 0 <= i < line.len() ==> (#[trigger] line[i] as u32) < 0x80,
        forall|i: int| 0 <= i < target.len() ==> (#[trigger] target[i] as u32) < 0x80,
    ensures
        line_matches(line, target) <==> exists|at: int| #[trigger] stands_at(line, target, at),
{
    let low = lowercase(line);
    let wanted = lowercase(target);
    assert(low == line.map_values(|ch: char| crate::text::ascii_lowercase(ch)));
    assert(wanted == target.map_values(|ch: char| crate::text::ascii_lowercase(ch)));
    assert forall|at: int| crate::text::occurs_at(low, wanted, at) <==> stands_at(
        line,
        target,
        at,
    ) by {
        if 0 <= at <= line.len() - target.len() {
            let part = low.subrange(at, at + wanted.len());
            if part == wanted {
                assert forall|j: int| 0 <= j < target.len() implies same_letter(
                    line[at + j],
                    #[trigger] target[j],
                ) by {
                    assert(part[j] == wanted[j]);
                    assert(low[at + j] == crate::text::ascii_lowercase(line[at + j]));
                    assert(wanted[j] == crate::text::ascii_lowercase(target[j]));
                    assert((line[at + j] as u32) < 0x80 && (target[j] as u32) < 0x80);
                    lemma_ascii_case(line[at + j], target[j]);
                }
            }
            if stands_at(line, target, at) {
                assert forall|j: int| 0 <= j < wanted.len() implies part[j] == wanted[j] by {
                    assert(same_letter(line[at + j], target[j]));
                    assert((line[at + j] as u32) < 0x80 && (target[j] as u32) < 0x80);
                    lemma_ascii_case(line[at + j], target[j]);
                }
                assert(part =~= wanted);
            }
        }
    }
    if line_matches(line, target) {
        let at = choose|at: int| crate::text::occurs_at(low, wanted, at);
        assert(stands_at(line, target, at));
    }
    if exists|at: int| #[trigger] stands_at(line, target, at) {
        let at = choose|at: int| #[trigger] stands_at(line, target, at);
        assert(crate::text::occurs_at(low, wanted, at));
    }
}

/// Whether a text stands at a place of a line, in upper or lower case.
pub open spec fn stands_at(line: Seq<char>, target: Seq<char>, at: int) -> bool {
    &&& 0 <= at <= line.len() - target.len()
    &&& forall|j: int| 0 <= j < target.len() ==> same_letter(line[at + j], #[trigger] target[j])
}

proof fn lemma_ascii_case(a: char, b: char)
    requires
        (a as u32) < 0x80,
        (b as u32) < 0x80,
    ensures
        crate::text::ascii_lowercase(a) == crate::text::ascii_lowercase(b) <==> same_letter(a, b),
{
}

/// Showing a row moves the view no further than needed: not at all if the row is in view,
/// otherwise so that the row is the first or the last one in view.
pub proof fn showing_moves_as_little_as_needed(viewer: Viewer, total_rows: nat, row: nat)
    requires
        total_rows >= 2,
    ensures
        ({
            let rows = total_rows - 1;
            let after = viewer.showing(total_rows, row);
            &&& after.top <= row < after.top + rows
            &&& viewer.top <= row < viewer.top + rows ==> after == viewer
            &&& row < viewer.top ==> after.top == row
            &&& row >= viewer.top + rows ==> after.top + rows == row + 1
            &&& after == (Viewer { top: after.top, ..viewer })
        }),
{
}

/// An update that brings nothing changes nothing that is shown. One that brings something
/// leaves a view that does not follow the log where it is.
pub proof fn updates_leave_the_view_in_place(
    viewer: Viewer,
    update: LogUpdate,
    total_rows: nat,
    content_width: nat,
)
    ensures
        ({
            let after = viewer.updated(update, total_rows, content_width);
            &&& !viewer.follow ==> after.top == viewer.top
            &&& after.follow == viewer.follow
            &&& after.search_term == viewer.search_term
            &&& after.status == viewer.status
            &&& after.path == viewer.path
            &&& update is Unchanged ==> after == viewer
            &&& update matches LogUpdate::Appended(bytes) ==> after.replay
                == viewer.replay.feed_bytes(bytes@)
        }),
{
    reveal(Viewer::updated);
    reveal(Viewer::ensured);
}

/// The status line tells what is given, or else the status, or else the position; it has the
/// width asked for.
pub proof fn the_status_line_is_filled(
    viewer: Viewer,
    total_rows: nat,
    width: nat,
    text: Seq<char>,
    i: int,
)
    requires
        0 <= i < width,
    ensures
        viewer.status_line(total_rows, width, Some(text)).len() == width,
        viewer.status_line(total_rows, width, None).len() == width,
        i < text.len() ==> viewer.status_line(total_rows, width, Some(text))[i] == text[i],
        i >= text.len() ==> viewer.status_line(total_rows, width, Some(text))[i] == ' ',
        0 < viewer.status.len() && i < viewer.status.len() ==> viewer.status_line(
            total_rows,
            width,
            None,
        )[i] == viewer.status[i],
        viewer.status.len() == 0 ==> viewer.status_line(total_rows, width, None)
            == viewer.status_line(total_rows, width, Some(viewer.position_text(total_rows))),
{
}

/// The part of the log that is told is a percentage: all of it where the end is in view, and
/// otherwise the part of the display rows down to the last one in view.
pub proof fn the_position_is_a_percentage(viewer: Viewer, total_rows: nat)
    requires
        viewer.layout is Some,
        total_rows >= 2,
    ensures
        ({
            let count = viewer.display().len() as int;
            let seen = viewer.top + total_rows - 1;
            let percent = viewer.percent(total_rows) as int;
            &&& 0 <= percent <= 100
            &&& seen >= count ==> percent == 100
            &&& seen < count ==> percent * count <= 100 * seen < (percent + 1) * count
        }),
{
    let count = viewer.display().len() as int;
    let seen = viewer.top + total_rows - 1;
    if count > 0 {
        let quotient = (seen * 100) / count;
        assert(quotient * count <= seen * 100 < (quotient + 1) * count) by (nonlinear_arith)
            requires
                count > 0,
                quotient == (seen * 100) / count,
        ;
        if seen >= count {
            assert(quotient >= 100) by (nonlinear_arith)
                requires
                    count > 0,
                    seen >= count,
                    seen * 100 < (quotient + 1) * count,
            ;
        } else {
            assert(quotient < 100) by (nonlinear_arith)
                requires
                    count > 0,
                    0 <= seen < count,
                    quotient * count <= seen * 100,
            ;
        }
    }
}

/// The name of the file at a path is what stands behind its last slash, unless that is
/// nothing, one dot or two dots.
pub proof fn file_names_stand_behind_the_last_slash(path: Seq<char>, name: Seq<char>)
    requires
        name.len() > 0,
        name != seq!['.'],
        name != seq!['.', '.'],
        forall|i: int| 0 <= i < name.len() ==> #[trigger] name[i] != '/',
    ensures
        file_name(name) == Some(name),
        file_name(path.push('/') + name) == Some(name),
        file_name(path.push('/')) == file_name(path),
{
    crate::transcript::lemma_split_plain(name, '/');
    crate::transcript::lemma_split_behind(path, '/', name);
    assert(seq![name].last() == name);
    assert(split(path, '/').push(name).last() == name);
    assert(path.push('/').drop_last() =~= path);
    assert(split(path, '/').push(Seq::<char>::empty()).drop_last() =~= split(path, '/'));
}

/// The text of a log is that of its rows, one after another.
pub proof fn the_lines_are_the_rows(viewer: Viewer, i: int)
    requires
        0 <= i < viewer.screen().rendered_rows().len(),
    ensures
        viewer.lines().len() == viewer.screen().rendered_rows().len(),
        viewer.lines()[i] == crate::cell::row_text(viewer.screen().rendered_rows()[i]),
{
    let screen = viewer.screen();
    if i >= screen.history.len() {
        crate::cell::trimming_keeps_the_start(screen.lines[i - screen.history.len()]);
    }
}

/// The log row at the top of the view is the one that the display row there is part of.
pub proof fn the_top_line_is_at_the_top(viewer: Viewer, content_width: nat, i: int)
    requires
        viewer.wf(),
        0 <= i < viewer.screen().rendered_rows().len(),
        ({
            let layout = viewer.ensured(content_width).layout->0;
            layout.first[i] <= viewer.top < layout.line_end(i)
        }),
    ensures
        viewer.ensured(content_width).top_line() == i,
{
    every_line_is_displayed(viewer, content_width);
    let v = viewer.ensured(content_width);
    let layout = v.layout->0;
    let rows = viewer.screen().rendered_rows();
    assert(layout.shows_line(i, rows[i]));
    assert(v.top == viewer.top) by {
        reveal(Viewer::ensured);
    }
    let part = layout.display.subrange(layout.first[i] as int, layout.line_end(i) as int);
    let at = viewer.top - layout.first[i];
    assert(0 <= at < part.len());
    assert(part[at] == layout.display[viewer.top as int]);
    assert(part == numbered(wrapped(rows[i], layout.width), i as nat));
    assert(numbered(wrapped(rows[i], layout.width), i as nat)[at].0 == i);
    assert(v.display() == layout.display);
}

/// The rows of the view are the display rows from the top on, and empty rows behind the last.
pub proof fn the_view_starts_at_the_top(viewer: Viewer, total_rows: nat, y: int)
    requires
        total_rows >= 2,
        0 <= y < total_rows - 1,
    ensures
        viewer.view_rows(total_rows).len() == total_rows - 1,
        viewer.view_rows(total_rows)[y] == viewer.row_cells(viewer.top + y),
        viewer.top + y < viewer.display().len() ==> viewer.row_cells(viewer.top + y)
            == viewer.display()[viewer.top + y].1,
{
}

/// The position tells whether the log is followed, the row at the top, counted from one, the
/// number of rows, and how much of the log has been seen.
pub proof fn the_position_is_told(viewer: Viewer, total_rows: nat)
    requires
        viewer.layout is Some,
        viewer.display().len() > 0,
    ensures
        ({
            let text = viewer.position_text(total_rows);
            let end = "  "@ + decimal(viewer.top + 1) + "/"@ + decimal(viewer.display().len())
                + "  "@ + decimal(viewer.percent(total_rows)) + "%"@;
            let start = if viewer.follow {
                "FOLLOW"@
            } else {
                "PAUSED"@
            };
            &&& text.len() >= start.len() + end.len()
            &&& text.subrange(0, start.len() as int) == start
            &&& text.subrange(text.len() - end.len(), text.len() as int) == end
        }),
{
    reveal(Viewer::position_text);
    let start = if viewer.follow {
        "FOLLOW"@
    } else {
        "PAUSED"@
    };
    let name = match file_name(viewer.path) {
        Some(name) => name,
        None => "viewer"@,
    };
    let end = "  "@ + decimal(viewer.top + 1) + "/"@ + decimal(viewer.display().len()) + "  "@
        + decimal(viewer.percent(total_rows)) + "%"@;
    let text = viewer.position_text(total_rows);
    assert(text =~= start + "  "@ + name + end);
    assert(text.subrange(0, start.len() as int) =~= start);
    assert(text.subrange(text.len() - end.len(), text.len() as int) =~= end);
}

/// The last row that the view can start at is the first from which the log fills the view to
/// its end; the view ends with the log or as many rows below its top as it has.
pub proof fn the_last_view_ends_with_the_log(viewer: Viewer, total_rows: nat)
    requires
        total_rows >= 2,
    ensures
        ({
            let count = viewer.display().len();
            let last = viewer.last_top(total_rows);
            let end = viewer.view_end(total_rows);
            &&& last > 0 ==> last + total_rows - 1 == count
            &&& last == 0 ==> count <= total_rows - 1
            &&& end <= count
            &&& end <= viewer.top + total_rows - 1
            &&& end == count || end == viewer.top + total_rows - 1
        }),
{
}

/// A new size replays the log on a screen of that size. A viewer that follows the log shows
/// its end afterwards, another one stays at its row as far as the log reaches. The search is
/// kept.
pub proof fn a_new_size_keeps_the_view(
    viewer: Viewer,
    rows: nat,
    cols: nat,
    total_rows: nat,
    content_width: nat,
    recording: Recording,
)
    requires
        rows > 0,
        cols > 0,
    ensures
        ({
            let after = viewer.resized(rows, cols, total_rows, content_width, recording);
            let last = after.last_top(total_rows);
            &&& after.replay == Replay::of(recording.bytes@, recording.events@, rows, cols)
            &&& after.signature == recording.signature
            &&& after.layout is Some
            &&& after.follow == viewer.follow
            &&& viewer.follow ==> after.top == last
            &&& !viewer.follow && viewer.top <= last ==> after.top == viewer.top
            &&& !viewer.follow && viewer.top > last ==> after.top == last
            &&& after.path == viewer.path
            &&& after.search_term == viewer.search_term
            &&& after.last_search_forward == viewer.last_search_forward
        }),
{
    reveal(Viewer::resized);
    reveal(Viewer::ensured);
    reveal(Screen::resize);
}

} // verus!
