//! The record of size changes that is kept beside a log: one line for each change, with
//! the log offset, the rows and the columns.

use crate::text::{
    chars_of, decimal, decimal_reads_back, parse_unsigned, push_decimal, split, split_text, texts,
    trim_text, trimmed, unsigned_value, white_space,
};
use vstd::prelude::*;

verus! {

/// A size change: from `offset` on, the log was written for a terminal of this size.
#[derive(Debug, Clone, Copy, PartialEq, Eq, Structural)]
pub struct ResizeEvent {
    pub offset: u64,
    pub rows: usize,
    pub cols: usize,
}

/// The file beside a log that holds its size changes.
pub fn resize_events_path(log_path: &str) -> (r: String)
    ensures
        r@ == log_path@ + ".resize"@,
{
    let mut path: String = log_path.to_owned();
    path.append(".resize");
    path
}

// Reading
// -------

/// The event that a line describes. Blank lines and comments describe none, nor do lines
/// that are not readable or give an empty size; what follows the three numbers is ignored.
pub open spec fn line_event(line: Seq<char>) -> Option<ResizeEvent> {
    let text = trimmed(line);
    let fields = split(text, '\t');
    if text.len() == 0 || text[0] == '#' || fields.len() < 3 {
        None
    } else {
        match (
            unsigned_value(fields[0], u64::MAX as nat),
            unsigned_value(fields[1], usize::MAX as nat),
            unsigned_value(fields[2], usize::MAX as nat),
        ) {
            (Some(offset), Some(rows), Some(cols)) => if rows == 0 || cols == 0 {
                None
            } else {
                Some(
                    ResizeEvent { offset: offset as u64, rows: rows as usize, cols: cols as usize },
                )
            },
            _ => None,
        }
    }
}

/// The events that some lines describe, in order.
pub open spec fn lines_events(lines: Seq<Seq<char>>) -> Seq<ResizeEvent>
    decreases lines.len(),
{
    if lines.len() == 0 {
        Seq::empty()
    } else {
        match line_event(lines.last()) {
            Some(event) => lines_events(lines.drop_last()).push(event),
            None => lines_events(lines.drop_last()),
        }
    }
}

/// The events in a record.
pub open spec fn recorded_events(contents: Seq<char>) -> Seq<ResizeEvent> {
    lines_events(split(contents, '\n'))
}

fn parse_line(line: &[char]) -> (r: Option<ResizeEvent>)
    ensures
        r == line_event(line@),
{
    let text: Vec<char> = trim_text(line);
    if text.len() == 0 || text[0] == '#' {
        return None;
    }
    let fields: Vec<Vec<char>> = split_text(text.as_slice(), '\t');
    let ghost views = texts(fields@);
    if fields.len() < 3 {
        return None;
    }
    assert(views[0] == fields@[0]@ && views[1] == fields@[1]@ && views[2] == fields@[2]@);
    let offset: u64 = match parse_unsigned(fields[0].as_slice(), u64::MAX) {
        Some(offset) => offset,
        None => {
            return None;
        },
    };
    let rows: u64 = match parse_unsigned(fields[1].as_slice(), usize::MAX as u64) {
        Some(rows) => rows,
        None => {
            return None;
        },
    };
    let cols: u64 = match parse_unsigned(fields[2].as_slice(), usize::MAX as u64) {
        Some(cols) => cols,
        None => {
            return None;
        },
    };
    if rows == 0 || cols == 0 {
        return None;
    }
    Some(ResizeEvent { offset, rows: rows as usize, cols: cols as usize })
}

/// The events in the record beside a log; none if there is no record.
pub fn load_resize_events(contents: Option<&str>) -> (r: Vec<ResizeEvent>)
    ensures
        r@ == (match contents {
            Some(text) => recorded_events(text@),
            None => Seq::empty(),
        }),
{
    let mut events: Vec<ResizeEvent> = Vec::new();
    let text: &str = match contents {
        Some(text) => text,
        None => {
            return events;
        },
    };
    let chars: Vec<char> = chars_of(text);
    let lines: Vec<Vec<char>> = split_text(chars.as_slice(), '\n');
    let ghost views = texts(lines@);
    let mut i: usize = 0;
    while i < lines.len()
        invariant
            i <= lines@.len(),
            views == texts(lines@),
            events@ == lines_events(views.take(i as int)),
        decreases lines@.len() - i,
    {
        assert(views.take(i + 1).drop_last() =~= views.take(i as int));
        assert(views.take(i + 1).last() == lines@[i as int]@);
        match parse_line(lines[i].as_slice()) {
            Some(event) => events.push(event),
            None => {},
        }
        i += 1;
    }
    assert(views.take(i as int) =~= views);
    events
}

// Writing
// -------

/// The line that records an event, with its line feed.
pub open spec fn event_line(event: ResizeEvent) -> Seq<char> {
    decimal(event.offset as nat).push('\t') + decimal(event.rows as nat).push('\t') + decimal(
        event.cols as nat,
    ).push('\n')
}

/// Keeps track of a log while it is written, and of what has been recorded beside it.
#[derive(Debug, Clone, Copy)]
pub struct TranscriptRecorder {
    /// The length of the log.
    pub log_offset: u64,
    /// The size recorded last.
    pub last_size: Option<(usize, usize)>,
}

impl TranscriptRecorder {
    /// The event to record when the terminal has this size: none for an empty size, or one
    /// that was recorded last.
    pub open spec fn due_event(self, rows: usize, cols: usize) -> Option<ResizeEvent> {
        if rows == 0 || cols == 0 || self.last_size == Some((rows, cols)) {
            None
        } else {
            Some(ResizeEvent { offset: self.log_offset, rows, cols })
        }
    }

    /// A recorder for a log of `log_offset` bytes and a terminal of the given size, and the
    /// first line for its record, if one is due.
    pub fn create(log_offset: u64, rows: usize, cols: usize) -> (r: (Self, Option<String>))
        ensures
            ({
                let empty = TranscriptRecorder { log_offset, last_size: None };
                &&& r.0.log_offset == log_offset
                &&& match empty.due_event(rows, cols) {
                    Some(event) => {
                        &&& r.0.last_size == Some((rows, cols))
                        &&& r.1 is Some
                        &&& r.1->0@ == event_line(event)
                    },
                    None => r.0.last_size is None && r.1 is None,
                }
            }),
    {
        let mut recorder = TranscriptRecorder { log_offset, last_size: None };
        let line: Option<String> = recorder.resize_record(rows, cols);
        recorder.record_resize(rows, cols);
        (recorder, line)
    }

    /// Takes note of bytes that have been appended to the log.
    pub fn append_bytes(&mut self, bytes: &[u8])
        requires
            old(self).log_offset + bytes@.len() <= u64::MAX,
        ensures
            final(self).log_offset == old(self).log_offset + bytes@.len(),
            final(self).last_size == old(self).last_size,
    {
        self.log_offset = self.log_offset + bytes.len() as u64;
    }

    /// The line to append to the record when the terminal has this size, if one is due.
    pub fn resize_record(&self, rows: usize, cols: usize) -> (r: Option<String>)
        ensures
            match self.due_event(rows, cols) {
                Some(event) => r is Some && r->0@ == event_line(event),
                None => r is None,
            },
    {
        if rows == 0 || cols == 0 {
            return None;
        }
        match self.last_size {
            Some((last_rows, last_cols)) => {
                if last_rows == rows && last_cols == cols {
                    return None;
                }
            },
            None => {},
        }
        let mut line: String = String::new();
        push_decimal(&mut line, self.log_offset);
        line.push('\t');
        push_decimal(&mut line, rows as u64);
        line.push('\t');
        push_decimal(&mut line, cols as u64);
        line.push('\n');
        assert(line@ =~= event_line(ResizeEvent { offset: self.log_offset, rows, cols }));
        Some(line)
    }

    /// Takes note that the line for this size, if one was due, has been appended.
    pub fn record_resize(&mut self, rows: usize, cols: usize)
        ensures
            final(self).log_offset == old(self).log_offset,
            final(self).last_size == (if old(self).due_event(rows, cols) is Some {
                Some((rows, cols))
            } else {
                old(self).last_size
            }),
            final(self).due_event(rows, cols) is None,
    {
        if rows != 0 && cols != 0 {
            self.last_size = Some((rows, cols));
        }
    }
}

// Laws
// ----

pub(crate) proof fn lemma_split_plain(text: Seq<char>, sep: char)
    requires
        forall|i: int| 0 <= i < text.len() ==> #[trigger] text[i] != sep,
    ensures
        split(text, sep) == seq![text],
    decreases text.len(),
{
    if text.len() == 0 {
        assert(text =~= Seq::<char>::empty());
    } else {
        lemma_split_plain(text.drop_last(), sep);
        assert(text.drop_last().push(text.last()) =~= text);
        assert(split(text, sep) =~= seq![text]);
    }
}

pub(crate) proof fn lemma_split_behind(text: Seq<char>, sep: char, part: Seq<char>)
    requires
        forall|i: int| 0 <= i < part.len() ==> #[trigger] part[i] != sep,
    ensures
        split(text.push(sep) + part, sep) == split(text, sep).push(part),
    decreases part.len(),
{
    let whole = text.push(sep) + part;
    if part.len() == 0 {
        assert(whole =~= text.push(sep));
        assert(whole.drop_last() =~= text);
        assert(part =~= Seq::<char>::empty());
    } else {
        lemma_split_behind(text, sep, part.drop_last());
        assert(whole.drop_last() =~= text.push(sep) + part.drop_last());
        assert(whole.last() == part.last());
        let parts = split(text, sep);
        assert(parts.push(part.drop_last()).drop_last() =~= parts);
        assert(part.drop_last().push(part.last()) =~= part);
    }
}

proof fn lemma_trimmed_kept(text: Seq<char>)
    requires
        text.len() > 0,
        !white_space(text[0]),
        !white_space(text.last()),
    ensures
        trimmed(text) == text,
{
}

proof fn lemma_decimal_is_digits(n: nat)
    ensures
        decimal(n).len() > 0,
        forall|i: int| 0 <= i < decimal(n).len() ==> '0' <= #[trigger] decimal(n)[i] <= '9',
    decreases n,
{
    if n >= 10 {
        lemma_decimal_is_digits(n / 10);
    }
}

/// A recorded line reads back as the event that it records.
pub proof fn record_reads_back(event: ResizeEvent)
    requires
        event.rows > 0,
        event.cols > 0,
    ensures
        line_event(event_line(event).drop_last()) == Some(event),
{
    let offset = decimal(event.offset as nat);
    let rows = decimal(event.rows as nat);
    let cols = decimal(event.cols as nat);
    lemma_decimal_is_digits(event.offset as nat);
    lemma_decimal_is_digits(event.rows as nat);
    lemma_decimal_is_digits(event.cols as nat);
    let line = event_line(event).drop_last();
    assert(line =~= (offset.push('\t') + rows).push('\t') + cols);
    assert(line[0] == offset[0]);
    assert(line.last() == cols.last());
    lemma_trimmed_kept(line);
    lemma_split_plain(offset, '\t');
    lemma_split_behind(offset, '\t', rows);
    lemma_split_behind(offset.push('\t') + rows, '\t', cols);
    let fields = split(line, '\t');
    assert(fields =~= seq![offset, rows, cols]);
    decimal_reads_back(event.offset as nat, u64::MAX as nat);
    decimal_reads_back(event.rows as nat, usize::MAX as nat);
    decimal_reads_back(event.cols as nat, usize::MAX as nat);
}

/// The record of some events.
pub open spec fn record_of(events: Seq<ResizeEvent>) -> Seq<char>
    decreases events.len(),
{
    if events.len() == 0 {
        Seq::empty()
    } else {
        record_of(events.drop_last()) + event_line(events.last())
    }
}

proof fn lemma_no_feed_in_line(event: ResizeEvent)
    ensures
        forall|i: int|
            0 <= i < event_line(event).len() - 1 ==> #[trigger] event_line(event).drop_last()[i]
                != '\n',
{
    lemma_decimal_is_digits(event.offset as nat);
    lemma_decimal_is_digits(event.rows as nat);
    lemma_decimal_is_digits(event.cols as nat);
}

/// What has been recorded is what is read: a record made of the lines of some events, none
/// with an empty size, gives these events in their order.
pub proof fn recorded_events_are_read(events: Seq<ResizeEvent>)
    requires
        forall|i: int|
            0 <= i < events.len() ==> (#[trigger] events[i]).rows > 0 && events[i].cols > 0,
    ensures
        recorded_events(record_of(events)) == events,
{
    lemma_record_lines(events);
    let lines = split(record_of(events), '\n');
    let last: Seq<char> = Seq::empty();
    assert(line_event(last) is None);
    assert(lines.last() == last);
    assert(lines_events(lines) == lines_events(lines.drop_last()));
}

proof fn lemma_record_lines(events: Seq<ResizeEvent>)
    requires
        forall|i: int|
            0 <= i < events.len() ==> (#[trigger] events[i]).rows > 0 && events[i].cols > 0,
    ensures
        ({
            let lines = split(record_of(events), '\n');
            &&& lines.len() > 0
            &&& lines.last() == Seq::<char>::empty()
            &&& lines_events(lines.drop_last()) == events
        }),
    decreases events.len(),
{
    if events.len() == 0 {
        let lines = split(record_of(events), '\n');
        assert(lines.drop_last() =~= Seq::<Seq<char>>::empty());
        assert(events =~= Seq::<ResizeEvent>::empty());
    } else {
        let before = events.drop_last();
        let event = events.last();
        lemma_record_lines(before);
        let done = split(record_of(before), '\n');
        let line = event_line(event).drop_last();
        let text = record_of(before) + line;
        lemma_no_feed_in_line(event);
        lemma_split_onto(record_of(before), '\n', line);
        assert(done.last() + line =~= line);
        assert(record_of(events) =~= text.push('\n'));
        assert(record_of(events).drop_last() =~= text);
        let lines = split(record_of(events), '\n');
        assert(lines =~= done.drop_last().push(line).push(Seq::<char>::empty()));
        assert(lines.drop_last() =~= done.drop_last().push(line));
        assert(lines.drop_last().drop_last() =~= done.drop_last());
        record_reads_back(event);
        assert(before.push(event) =~= events);
    }
}

proof fn lemma_split_onto(text: Seq<char>, sep: char, part: Seq<char>)
    requires
        forall|i: int| 0 <= i < part.len() ==> #[trigger] part[i] != sep,
    ensures
        split(text + part, sep) == split(text, sep).drop_last().push(
            split(text, sep).last() + part,
        ),
    decreases part.len(),
{
    crate::text::lemma_split_not_empty(text, sep);
    let whole = text + part;
    let parts = split(text, sep);
    if part.len() == 0 {
        assert(whole =~= text);
        assert(parts.last() + part =~= parts.last());
        assert(parts.drop_last().push(parts.last()) =~= parts);
    } else {
        lemma_split_onto(text, sep, part.drop_last());
        assert(whole.drop_last() =~= text + part.drop_last());
        assert(whole.last() == part.last());
        let open = parts.last() + part.drop_last();
        assert(parts.drop_last().push(open).drop_last() =~= parts.drop_last());
        assert(open.push(part.last()) =~= parts.last() + part);
    }
}

/// A recorder writes down a size exactly if it is not empty and is not the one written down
/// last, with the length of the log so far.
pub proof fn changes_of_size_are_recorded(recorder: TranscriptRecorder, rows: usize, cols: usize)
    ensures
        recorder.due_event(rows, cols) is Some <==> rows > 0 && cols > 0 && recorder.last_size
            != Some((rows, cols)),
        recorder.due_event(rows, cols) matches Some(event) ==> event.offset == recorder.log_offset
            && event.rows == rows && event.cols == cols,
{
}

/// Blank lines and comments record nothing, nor do lines with an empty size; white space at
/// the ends of a line, and what follows its three numbers, does not matter.
pub proof fn other_lines_record_nothing(line: Seq<char>, offset: nat, rows: nat, cols: nat)
    requires
        offset <= u64::MAX,
        rows <= usize::MAX,
        cols <= usize::MAX,
    ensures
        (forall|i: int| 0 <= i < line.len() ==> white_space(#[trigger] line[i])) ==> line_event(
            line,
        ) is None,
        line.len() > 0 && line[0] == '#' ==> line_event(line) is None,
        ({
            let numbers = decimal(offset).push('\t') + decimal(rows).push('\t') + decimal(cols);
            let event = ResizeEvent {
                offset: offset as u64,
                rows: rows as usize,
                cols: cols as usize,
            };
            &&& line_event(numbers) == (if rows > 0 && cols > 0 {
                Some(event)
            } else {
                None
            })
        }),
{
    let ends = crate::text::trimming_takes_white_space(line);
    if forall|i: int| 0 <= i < line.len() ==> white_space(#[trigger] line[i]) {
        if ends.0 < ends.1 {
            assert(!white_space(line[ends.0]));
        }
        assert(trimmed(line).len() == 0);
    }
    if line.len() > 0 && line[0] == '#' {
        assert(!white_space('#'));
        if ends.0 > 0 {
            assert(white_space(line[0]));
        }
        if ends.1 == 0 {
            assert(white_space(line[0]));
        }
    }
    let first = decimal(offset).push('\t') + decimal(rows);
    let numbers = decimal(offset).push('\t') + decimal(rows).push('\t') + decimal(cols);
    assert(numbers =~= first.push('\t') + decimal(cols));
    lemma_decimal_is_digits(offset);
    lemma_decimal_is_digits(rows);
    lemma_decimal_is_digits(cols);
    lemma_split_plain(decimal(offset), '\t');
    lemma_split_behind(decimal(offset), '\t', decimal(rows));
    lemma_split_behind(first, '\t', decimal(cols));
    assert(numbers[0] == decimal(offset)[0]);
    assert(numbers.last() == decimal(cols)[decimal(cols).len() - 1]);
    lemma_trimmed_kept(numbers);
    decimal_reads_back(offset, u64::MAX as nat);
    decimal_reads_back(rows, usize::MAX as nat);
    decimal_reads_back(cols, usize::MAX as nat);
}

} // verus!
