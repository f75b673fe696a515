//! Replaying a log on a virtual terminal, with the size changes recorded beside it.

use crate::screen::{extends, feed_in_parts, feed_keeps_history, lemma_extends_further, Screen};
use crate::terminal::VirtualTerminal;
use crate::transcript::{resize_events_path, ResizeEvent};
use crate::utf8::{
    broken_character_is_replaced, decode_utf8_chunk, decoded, decoded_chunk, decoding_in_parts,
    goes_on, incomplete, replacement, rest_is_incomplete,
};
use vstd::prelude::*;

verus! {

/// What tells one state of a file from another.
#[derive(Debug, Clone, Copy, PartialEq, Eq, Structural)]
pub struct FileSignature {
    pub len: u64,
    /// When the file was changed last, in nanoseconds since the epoch.
    pub modified: Option<i128>,
}

/// A log as it was found: its bytes, and the size changes beside it with the signature of
/// the file that holds them.
#[derive(Debug)]
pub struct Recording {
    pub bytes: Vec<u8>,
    pub events: Vec<ResizeEvent>,
    pub signature: Option<FileSignature>,
}

/// What has to be read of a log to bring its replay up to date.
#[derive(Debug, Clone, Copy, PartialEq, Eq, Structural)]
pub enum PollPlan {
    /// The whole log and the size changes.
    ReplayAll,
    /// Nothing.
    Unchanged,
    /// The bytes from this offset on.
    ReadFrom(u64),
}

/// What has been read of a log to bring its replay up to date.
#[derive(Debug)]
pub enum LogUpdate {
    Replaced(Recording),
    Unchanged,
    Appended(Vec<u8>),
}

/// The state of a replay.
#[verifier::ext_equal]
pub struct Replay {
    /// The number of bytes replayed.
    pub offset: nat,
    /// The bytes of a character that is not complete yet.
    pub pending: Seq<u8>,
    pub events: Seq<ResizeEvent>,
    /// The number of size changes carried out.
    pub next: nat,
    pub screen: Screen,
}

impl Replay {
    /// Whether a size change is due.
    pub open spec fn has_due(self) -> bool {
        self.next < self.events.len() && self.events[self.next as int].offset <= self.offset
    }

    /// Carries out the size changes that are due.
    pub open spec fn settled(self) -> Replay
        decreases self.events.len() - self.next,
    {
        if self.has_due() {
            let event = self.events[self.next as int];
            Replay {
                next: self.next + 1,
                screen: self.screen.resize(event.rows as nat, event.cols as nat),
                ..self
            }.settled()
        } else {
            self
        }
    }

    /// Takes in one byte, and carries out the size changes that are due behind it.
    pub open spec fn feed_byte(self, byte: u8) -> Replay {
        let d = decoded(self.pending.push(byte));
        Replay {
            offset: self.offset + 1,
            pending: d.rest,
            screen: self.screen.feed(d.text),
            ..self
        }.settled()
    }

    /// Takes in bytes one by one.
    pub open spec fn feed_bytes(self, bytes: Seq<u8>) -> Replay
        decreases bytes.len(),
    {
        if bytes.len() == 0 {
            self.settled()
        } else {
            self.feed_bytes(bytes.drop_last()).feed_byte(bytes.last())
        }
    }

    /// The size that a replay starts with: the last one recorded at the very start of the
    /// log, among the events from `next` on, or the given one.
    pub open spec fn initial_size(
        events: Seq<ResizeEvent>,
        next: nat,
        rows: nat,
        cols: nat,
    ) -> (nat, nat, nat)
        decreases events.len() - next,
    {
        if next < events.len() && events[next as int].offset == 0 {
            Replay::initial_size(
                events,
                next + 1,
                events[next as int].rows as nat,
                events[next as int].cols as nat,
            )
        } else {
            (next, rows, cols)
        }
    }

    /// The start of a replay on a terminal of the given size.
    pub open spec fn begun(events: Seq<ResizeEvent>, rows: nat, cols: nat) -> Replay {
        let (next, initial_rows, initial_cols) = Replay::initial_size(events, 0, rows, cols);
        Replay {
            offset: 0,
            pending: Seq::empty(),
            events,
            next,
            screen: Screen::initial(
                if initial_rows == 0 {
                    1
                } else {
                    initial_rows
                },
                if initial_cols == 0 {
                    1
                } else {
                    initial_cols
                },
                Seq::empty(),
            ),
        }
    }

    /// Ends a replay: an incomplete character is replaced.
    pub open spec fn finished(self) -> Replay {
        let d = decoded_chunk(self.pending, Seq::empty(), true);
        Replay { pending: d.rest, screen: self.screen.feed(d.text), ..self }.settled()
    }

    /// The replay of a whole log.
    pub open spec fn of(bytes: Seq<u8>, events: Seq<ResizeEvent>, rows: nat, cols: nat) -> Replay {
        Replay::begun(events, rows, cols).feed_bytes(bytes).finished()
    }
}

/// The number of bytes replayed after an update, if it was `offset` before.
pub open spec fn offset_after(offset: nat, update: LogUpdate) -> nat {
    match update {
        LogUpdate::Replaced(recording) => recording.bytes@.len(),
        LogUpdate::Unchanged => offset,
        LogUpdate::Appended(bytes) => offset + bytes@.len(),
    }
}

/// How far a log has been replayed, apart from the terminal.
#[verifier::ext_equal]
pub struct Progress {
    pub path: Seq<char>,
    pub resize_path: Seq<char>,
    pub offset: nat,
    pub pending: Seq<u8>,
    pub events: Seq<ResizeEvent>,
    pub next: nat,
    pub signature: Option<FileSignature>,
}

impl Progress {
    /// No more size changes have been carried out than there are.
    pub open spec fn wf(self) -> bool {
        self.next <= self.events.len()
    }

    /// The replay of the log at `path` that has not begun.
    pub open spec fn start(path: Seq<char>) -> Progress {
        Progress {
            path,
            resize_path: path + ".resize"@,
            offset: 0,
            pending: Seq::empty(),
            events: Seq::empty(),
            next: 0,
            signature: None,
        }
    }

    /// The state of the replay on a terminal with the given screen.
    pub open spec fn replay(self, screen: Screen) -> Replay {
        Replay {
            offset: self.offset,
            pending: self.pending,
            events: self.events,
            next: self.next,
            screen,
        }
    }

    /// Whether `later` replays the same log.
    pub open spec fn same_log(self, later: Progress) -> bool {
        &&& later.path == self.path
        &&& later.resize_path == self.resize_path
    }
}

/// How far a log has been replayed.
#[derive(Debug)]
pub struct ReplayFile {
    pub(crate) path: String,
    pub(crate) resize_path: String,
    pub(crate) offset: u64,
    pub(crate) pending_utf8: Vec<u8>,
    pub(crate) resize_events: Vec<ResizeEvent>,
    pub(crate) next_resize_index: usize,
    pub(crate) resize_signature: Option<FileSignature>,
}

impl View for ReplayFile {
    type V = Progress;

    open(crate) spec fn view(&self) -> Progress {
        Progress {
            path: self.path@,
            resize_path: self.resize_path@,
            offset: self.offset as nat,
            pending: self.pending_utf8@,
            events: self.resize_events@,
            next: self.next_resize_index as nat,
            signature: self.resize_signature,
        }
    }
}

impl ReplayFile {
    /// The state of the replay on a terminal with the given screen.
    pub open spec fn replay(self, screen: Screen) -> Replay {
        self@.replay(screen)
    }

    /// A replay of the log at `path` that has not begun.
    pub fn new(path: String) -> (r: Self)
        ensures
            r@ == Progress::start(path@),
            r@.wf(),
    {
        let resize_path: String = resize_events_path(path.as_str());
        let r = ReplayFile {
            path,
            resize_path,
            offset: 0,
            pending_utf8: Vec::new(),
            resize_events: Vec::new(),
            next_resize_index: 0,
            resize_signature: None,
        };
        assert(r@ =~= Progress::start(path@));
        r
    }

    /// The path of the log.
    pub fn path(&self) -> (r: &str)
        ensures
            r@ == self@.path,
    {
        self.path.as_str()
    }

    /// The path of the file with the size changes.
    pub fn resize_path(&self) -> (r: &str)
        ensures
            r@ == self@.resize_path,
    {
        self.resize_path.as_str()
    }

    /// The number of bytes replayed.
    pub fn offset(&self) -> (r: u64)
        ensures
            r == self@.offset,
    {
        self.offset
    }

    /// The signature of the file with the size changes, as it was read last.
    pub fn resize_signature(&self) -> (r: Option<FileSignature>)
        ensures
            r == self@.signature,
    {
        self.resize_signature
    }

    fn reset_term_for_replay(&mut self, term: &mut VirtualTerminal)
        requires
            old(self).next_resize_index == 0,
            old(self).offset == 0,
            old(self).pending_utf8@.len() == 0,
        ensures
            final(term)@.wf(),
            final(self).replay(final(term)@) == Replay::begun(
                old(self).resize_events@,
                old(term)@.rows,
                old(term)@.cols,
            ),
            old(self)@.same_log(final(self)@),
            final(self)@.signature == old(self)@.signature,
            final(self)@.wf(),
    {
        let mut initial_rows: usize = term.rows();
        let mut initial_cols: usize = term.cols();
        let ghost events = self.resize_events@;
        let ghost rows = term@.rows;
        let ghost cols = term@.cols;
        let ghost start = *self;
        while self.next_resize_index < self.resize_events.len()
            && self.resize_events[self.next_resize_index].offset == 0
            invariant
                self.next_resize_index <= self.resize_events@.len(),
                self.resize_events@ == events,
                start@.same_log(self@),
                self.resize_signature == start.resize_signature,
                self.offset == 0,
                self.pending_utf8@.len() == 0,
                Replay::initial_size(events, 0, rows, cols) == Replay::initial_size(
                    events,
                    self.next_resize_index as nat,
                    initial_rows as nat,
                    initial_cols as nat,
                ),
            decreases events.len() - self.next_resize_index,
        {
            let event: ResizeEvent = self.resize_events[self.next_resize_index];
            initial_rows = event.rows;
            initial_cols = event.cols;
            self.next_resize_index = self.next_resize_index + 1;
        }
        term.reset_to_size(initial_rows, initial_cols);
        assert(self.replay(term@) =~= Replay::begun(events, rows, cols));
    }

    fn apply_resize_events_at_current_offset(&mut self, term: &mut VirtualTerminal)
        requires
            old(term)@.wf(),
            old(self)@.wf(),
        ensures
            final(term)@.wf(),
            final(self).replay(final(term)@) == old(self).replay(old(term)@).settled(),
            old(self)@.same_log(final(self)@),
            final(self)@.signature == old(self)@.signature,
            final(self)@.wf(),
            !final(self).replay(final(term)@).has_due(),
    {
        let ghost start = *self;
        let ghost goal = self.replay(term@).settled();
        while self.next_resize_index < self.resize_events.len()
            && self.resize_events[self.next_resize_index].offset <= self.offset
            invariant
                term@.wf(),
                self.next_resize_index <= self.resize_events@.len(),
                start@.same_log(self@),
                self.resize_signature == start.resize_signature,
                self.replay(term@).settled() == goal,
            decreases self.resize_events@.len() - self.next_resize_index,
        {
            let ghost before = self.replay(term@);
            let event: ResizeEvent = self.resize_events[self.next_resize_index];
            term.resize(event.rows, event.cols);
            self.next_resize_index = self.next_resize_index + 1;
            assert(self.replay(term@) =~= (Replay {
                next: before.next + 1,
                screen: before.screen.resize(event.rows as nat, event.cols as nat),
                ..before
            }));
        }
    }

    /// Takes in bytes of the log, and carries out the size changes at their offsets.
    pub fn feed_bytes(&mut self, term: &mut VirtualTerminal, bytes: &[u8])
        requires
            old(term)@.wf(),
            old(self)@.wf(),
            old(self)@.offset + bytes@.len() <= u64::MAX,
        ensures
            final(term)@.wf(),
            final(self).replay(final(term)@) == old(self).replay(old(term)@).feed_bytes(bytes@),
            old(self)@.same_log(final(self)@),
            final(self)@.signature == old(self)@.signature,
            final(self)@.wf(),
            final(self)@.offset == old(self)@.offset + bytes@.len(),
            !final(self).replay(final(term)@).has_due(),
    {
        let ghost first = *self;
        let ghost r = self.replay(term@);
        self.apply_resize_events_at_current_offset(term);
        proof {
            lemma_settled(r);
        }
        assert(bytes@.take(0) =~= Seq::<u8>::empty());
        let mut start: usize = 0;
        while start < bytes.len()
            invariant
                start <= bytes@.len(),
                term@.wf(),
                self.next_resize_index <= self.resize_events@.len(),
                first@.same_log(self@),
                self.resize_signature == first.resize_signature,
                self.offset == first.offset + start,
                first.offset + bytes@.len() <= u64::MAX,
                self.replay(term@) == r.feed_bytes(bytes@.take(start as int)),
                !self.replay(term@).has_due(),
            decreases bytes@.len() - start,
        {
            let mut end: usize = bytes.len();
            if self.next_resize_index < self.resize_events.len() {
                let delta: u64 = self.resize_events[self.next_resize_index].offset - self.offset;
                if delta < (end - start) as u64 {
                    end = start + delta as usize;
                }
            }
            let ghost before = self.replay(term@);
            let chunk: &[u8] = vstd::slice::slice_subrange(bytes, start, end);
            let text: String = decode_utf8_chunk(&mut self.pending_utf8, chunk, false);
            term.feed(text.as_str());
            self.offset = self.offset + (end - start) as u64;
            let ghost fed = self.replay(term@);
            self.apply_resize_events_at_current_offset(term);
            proof {
                let d = decoded(before.pending + chunk@);
                assert(fed =~= (Replay {
                    offset: before.offset + chunk@.len(),
                    pending: d.rest,
                    screen: before.screen.feed(d.text),
                    ..before
                }));
                lemma_settled(fed);
                lemma_chunk(before, chunk@);
                lemma_feed_onto(r, bytes@.take(start as int), chunk@);
                assert(bytes@.take(start as int) + chunk@ =~= bytes@.take(end as int));
            }
            start = end;
        }
        assert(bytes@.take(start as int) =~= bytes@);
    }

    /// Replays a whole log from its start. The terminal keeps its size unless one is
    /// recorded for the start of the log.
    pub fn replay_all(&mut self, term: &mut VirtualTerminal, recording: Recording)
        ensures
            final(term)@.wf(),
            final(self).replay(final(term)@) == Replay::of(
                recording.bytes@,
                recording.events@,
                old(term)@.rows,
                old(term)@.cols,
            ),
            old(self)@.same_log(final(self)@),
            final(self)@.signature == recording.signature,
            final(self)@.wf(),
            final(self)@.offset == recording.bytes@.len(),
    {
        self.offset = 0;
        self.pending_utf8.clear();
        self.resize_events = recording.events;
        self.next_resize_index = 0;
        self.resize_signature = recording.signature;
        self.reset_term_for_replay(term);
        let total: usize = recording.bytes.len();
        assert(total <= u64::MAX);
        self.feed_bytes(term, recording.bytes.as_slice());
        let ghost fed = self.replay(term@);
        let remainder: String = decode_utf8_chunk(&mut self.pending_utf8, &[], true);
        term.feed(remainder.as_str());
        proof {
            let d = decoded_chunk(fed.pending, Seq::empty(), true);
            assert(self.replay(term@) =~= (Replay {
                pending: d.rest,
                screen: fed.screen.feed(d.text),
                ..fed
            }));
        }
        self.apply_resize_events_at_current_offset(term);
    }

    /// What has to be read when the file beside the log has the given signature, and the
    /// log the given size: everything if the recorded size changes are not the ones known,
    /// or the log has become shorter; otherwise what has been added.
    pub fn poll_plan(&self, resize_signature: Option<FileSignature>, size: u64) -> (r: PollPlan)
        ensures
            r == (if resize_signature != self@.signature || size < self@.offset {
                PollPlan::ReplayAll
            } else if size == self@.offset {
                PollPlan::Unchanged
            } else {
                PollPlan::ReadFrom(self@.offset as u64)
            }),
    {
        let same: bool = match (resize_signature, self.resize_signature) {
            (Some(found), Some(known)) => found == known,
            (None, None) => true,
            _ => false,
        };
        if !same || size < self.offset {
            PollPlan::ReplayAll
        } else if size == self.offset {
            PollPlan::Unchanged
        } else {
            PollPlan::ReadFrom(self.offset)
        }
    }

    /// The replay after an update.
    pub open spec fn polled(self, screen: Screen, update: LogUpdate) -> Replay {
        match update {
            LogUpdate::Replaced(recording) => Replay::of(
                recording.bytes@,
                recording.events@,
                screen.rows,
                screen.cols,
            ),
            LogUpdate::Unchanged => self.replay(screen),
            LogUpdate::Appended(bytes) => self.replay(screen).feed_bytes(bytes@),
        }
    }

    /// Whether an update brings anything.
    pub open spec fn update_changes(update: LogUpdate) -> bool {
        match update {
            LogUpdate::Replaced(_) => true,
            LogUpdate::Unchanged => false,
            LogUpdate::Appended(bytes) => bytes@.len() > 0,
        }
    }

    /// Brings the replay up to date with what has been read. Returns whether there was
    /// anything new.
    pub fn poll(&mut self, term: &mut VirtualTerminal, update: LogUpdate) -> (r: bool)
        requires
            old(term)@.wf(),
            old(self)@.wf(),
            offset_after(old(self)@.offset, update) <= u64::MAX,
        ensures
            final(term)@.wf(),
            r == ReplayFile::update_changes(update),
            final(self).replay(final(term)@) == old(self).polled(old(term)@, update),
            old(self)@.same_log(final(self)@),
            final(self)@.signature == (match update {
                LogUpdate::Replaced(recording) => recording.signature,
                _ => old(self)@.signature,
            }),
            final(self)@.wf(),
            final(self)@.offset == offset_after(old(self)@.offset, update),
    {
        match update {
            LogUpdate::Replaced(recording) => {
                self.replay_all(term, recording);
                true
            },
            LogUpdate::Unchanged => false,
            LogUpdate::Appended(bytes) => {
                self.feed_bytes(term, bytes.as_slice());
                bytes.len() > 0
            },
        }
    }
}

// Laws
// ----

proof fn lemma_settled(r: Replay)
    ensures
        r.settled().settled() == r.settled(),
        !r.settled().has_due(),
        r.settled().offset == r.offset,
        r.settled().pending == r.pending,
        r.settled().events == r.events,
    decreases r.events.len() - r.next,
{
    if r.has_due() {
        let event = r.events[r.next as int];
        lemma_settled(
            Replay {
                next: r.next + 1,
                screen: r.screen.resize(event.rows as nat, event.cols as nat),
                ..r
            },
        );
    }
}

pub(crate) proof fn lemma_fed(r: Replay, bytes: Seq<u8>)
    ensures
        !r.feed_bytes(bytes).has_due(),
        r.feed_bytes(bytes).offset == r.offset + bytes.len(),
        r.feed_bytes(bytes).events == r.events,
    decreases bytes.len(),
{
    if bytes.len() == 0 {
        lemma_settled(r);
    } else {
        lemma_fed(r, bytes.drop_last());
        let before = r.feed_bytes(bytes.drop_last());
        let d = decoded(before.pending.push(bytes.last()));
        lemma_settled(
            Replay {
                offset: before.offset + 1,
                pending: d.rest,
                screen: before.screen.feed(d.text),
                ..before
            },
        );
    }
}

/// Bytes up to the next size change can be taken in at once.
pub(crate) proof fn lemma_chunk(r: Replay, bytes: Seq<u8>)
    requires
        !r.has_due(),
        bytes.len() > 0,
        r.next < r.events.len() ==> r.events[r.next as int].offset >= r.offset + bytes.len(),
    ensures
        ({
            let d = decoded(r.pending + bytes);
            r.feed_bytes(bytes) == (Replay {
                offset: r.offset + bytes.len(),
                pending: d.rest,
                screen: r.screen.feed(d.text),
                ..r
            }).settled()
        }),
    decreases bytes.len(),
{
    let before = bytes.drop_last();
    let last = bytes.last();
    let d = decoded(r.pending + bytes);
    let done = decoded(r.pending + before);
    assert(r.pending + bytes =~= (r.pending + before) + seq![last]);
    decoding_in_parts(r.pending + before, seq![last]);
    assert(done.rest + seq![last] =~= done.rest.push(last));
    feed_in_parts(r.screen, done.text, decoded(done.rest.push(last)).text);
    if before.len() > 0 {
        lemma_chunk(r, before);
        let fed = Replay {
            offset: r.offset + before.len(),
            pending: done.rest,
            screen: r.screen.feed(done.text),
            ..r
        };
        assert(!fed.has_due());
        assert(r.feed_bytes(before) == fed);
    } else {
        assert(r.pending + before =~= r.pending);
        assert(r.feed_bytes(before) == r);
        assert(decoded(r.pending.push(last)) == d) by {
            assert(r.pending + bytes =~= r.pending.push(last));
        }
    }
}

proof fn lemma_feed_onto(r: Replay, first: Seq<u8>, second: Seq<u8>)
    ensures
        r.feed_bytes(first).feed_bytes(second) == r.feed_bytes(first + second),
    decreases second.len(),
{
    lemma_fed(r, first);
    if second.len() == 0 {
        assert(first + second =~= first);
    } else {
        lemma_feed_onto(r, first, second.drop_last());
        assert((first + second).drop_last() =~= first + second.drop_last());
        assert((first + second).last() == second.last());
    }
}

/// A replay does not depend on how the log is cut into pieces.
pub proof fn replaying_in_parts(replay: Replay, first: Seq<u8>, second: Seq<u8>)
    ensures
        replay.feed_bytes(first).feed_bytes(second) == replay.feed_bytes(first + second),
{
    lemma_feed_onto(replay, first, second);
}

/// No size change is left due: a replay carries out each as soon as it has come that far.
pub proof fn no_size_change_is_left_due(
    replay: Replay,
    bytes: Seq<u8>,
    events: Seq<ResizeEvent>,
    rows: nat,
    cols: nat,
)
    ensures
        !replay.feed_bytes(bytes).has_due(),
        !Replay::of(bytes, events, rows, cols).has_due(),
{
    lemma_fed(replay, bytes);
    let fed = Replay::begun(events, rows, cols).feed_bytes(bytes);
    let d = decoded_chunk(fed.pending, Seq::empty(), true);
    lemma_settled(Replay { pending: d.rest, screen: fed.screen.feed(d.text), ..fed });
}

proof fn lemma_settled_next(r: Replay)
    ensures
        r.settled().next >= r.next,
        r.settled().next == r.next ==> r.settled() == r,
    decreases r.events.len() - r.next,
{
    if r.has_due() {
        let event = r.events[r.next as int];
        lemma_settled_next(
            Replay {
                next: r.next + 1,
                screen: r.screen.resize(event.rows as nat, event.cols as nat),
                ..r
            },
        );
    }
}

/// A replay that goes on without a size change keeps the size and the history, and only
/// adds rows to it, without the blanks at their ends.
pub proof fn going_on_keeps_history(replay: Replay, bytes: Seq<u8>)
    ensures
        replay.feed_bytes(bytes).next >= replay.next,
        replay.feed_bytes(bytes).next == replay.next ==> extends(
            replay.screen,
            replay.feed_bytes(bytes).screen,
        ),
    decreases bytes.len(),
{
    if bytes.len() == 0 {
        lemma_settled_next(replay);
    } else {
        let before = replay.feed_bytes(bytes.drop_last());
        going_on_keeps_history(replay, bytes.drop_last());
        let d = decoded(before.pending.push(bytes.last()));
        lemma_settled_next(
            Replay {
                offset: before.offset + 1,
                pending: d.rest,
                screen: before.screen.feed(d.text),
                ..before
            },
        );
        let fed = before.screen.feed(d.text);
        feed_keeps_history(before.screen, d.text);
        if replay.feed_bytes(bytes).next == replay.next {
            lemma_extends_further(replay.screen, before.screen, fed);
        }
    }
}

pub(crate) proof fn lemma_pending(r: Replay, bytes: Seq<u8>)
    requires
        r.pending.len() == 0 || incomplete(r.pending),
    ensures
        r.feed_bytes(bytes).pending.len() == 0 || incomplete(r.feed_bytes(bytes).pending),
    decreases bytes.len(),
{
    if bytes.len() == 0 {
        lemma_settled(r);
    } else {
        let before = r.feed_bytes(bytes.drop_last());
        let d = decoded(before.pending.push(bytes.last()));
        rest_is_incomplete(before.pending.push(bytes.last()));
        lemma_settled(
            Replay {
                offset: before.offset + 1,
                pending: d.rest,
                screen: before.screen.feed(d.text),
                ..before
            },
        );
    }
}

/// The replay of a log that ends inside a character goes on as if the character had not
/// been replaced, if what comes next does not go on with it.
proof fn lemma_replaced_early(fed: Replay, second: Seq<u8>)
    requires
        !fed.has_due(),
        incomplete(fed.pending),
        second.len() > 0,
        !goes_on(fed.pending, second[0]),
    ensures
        fed.finished().feed_bytes(second) == fed.feed_bytes(second),
{
    let nothing = Seq::<u8>::empty();
    let byte = second[0];
    let t = decoded(seq![byte]).text;
    assert(fed.pending + nothing =~= fed.pending);
    assert(decoded(fed.pending).text.push(replacement()) =~= seq![replacement()]);
    let finished = fed.finished();
    assert(finished =~= (Replay {
        pending: nothing,
        screen: fed.screen.feed(seq![replacement()]),
        ..fed
    }));
    broken_character_is_replaced(fed.pending, byte);
    feed_in_parts(fed.screen, seq![replacement()], t);
    assert(finished.pending.push(byte) =~= seq![byte]);
    assert(seq![byte].drop_last() =~= nothing);
    assert(fed.feed_bytes(nothing) == fed);
    assert(finished.feed_bytes(nothing) == finished);
    assert(fed.feed_bytes(seq![byte]) == finished.feed_bytes(seq![byte]));
    let later = second.skip(1);
    assert(second =~= seq![byte] + later);
    lemma_feed_onto(fed, seq![byte], later);
    lemma_feed_onto(finished, seq![byte], later);
}

/// Following a log as it grows shows what replaying the longer log from its start shows,
/// unless the log so far ends inside a character that what is added goes on with.
pub proof fn following_is_replaying(
    first: Seq<u8>,
    second: Seq<u8>,
    events: Seq<ResizeEvent>,
    rows: nat,
    cols: nat,
)
    requires
        ({
            let pending = Replay::begun(events, rows, cols).feed_bytes(first).pending;
            pending.len() == 0 || second.len() == 0 || !goes_on(pending, second[0])
        }),
    ensures
        Replay::of(first, events, rows, cols).feed_bytes(second).finished() == Replay::of(
            first + second,
            events,
            rows,
            cols,
        ),
{
    let begun = Replay::begun(events, rows, cols);
    let fed = begun.feed_bytes(first);
    let nothing = Seq::<u8>::empty();
    lemma_fed(begun, first);
    lemma_pending(begun, first);
    lemma_feed_onto(begun, first, second);
    assert(decoded(nothing).text =~= Seq::<char>::empty());
    if fed.pending.len() == 0 {
        assert(fed.pending + nothing =~= nothing);
        assert(fed.finished() =~= fed);
    } else if second.len() == 0 {
        let finished = fed.finished();
        assert(first + second =~= first);
        assert(fed.pending + nothing =~= fed.pending);
        assert(finished =~= (Replay {
            pending: nothing,
            screen: finished.screen,
            ..fed
        }));
        assert(finished.pending + nothing =~= nothing);
        assert(finished.feed_bytes(second) == finished);
        assert(finished.finished() =~= finished);
    } else {
        lemma_replaced_early(fed, second);
    }
}

} // verus!
