//! A recorded run of a program: what its terminal shows, and what is recorded of it. The
//! replay of the record shows what the terminal has shown.

use crate::replay::{lemma_chunk, lemma_fed, lemma_pending, replaying_in_parts, Replay};
use crate::screen::{feed_keeps_history, Screen};
use crate::split_model::Program;
use crate::transcript::{
    record_of, recorded_events, recorded_events_are_read, ResizeEvent, TranscriptRecorder,
};
use crate::utf8::decoded;
use vstd::prelude::*;

verus! {

/// What happens to the terminal of a program.
pub enum Step {
    /// The program writes these bytes.
    Output(Seq<u8>),
    /// The terminal gets this size, in rows and columns.
    Size(usize, usize),
}

/// A program whose terminal is recorded.
#[verifier::ext_equal]
pub struct Session {
    pub program: Program,
    /// The bytes in the log.
    pub log: Seq<u8>,
    /// The size changes in the record beside the log.
    pub events: Seq<ResizeEvent>,
    /// The size recorded last.
    pub last_size: Option<(usize, usize)>,
}

impl Session {
    /// What keeps track of the log and the record.
    pub open spec fn recorder(self) -> TranscriptRecorder {
        TranscriptRecorder { log_offset: self.log.len() as u64, last_size: self.last_size }
    }

    /// Records that the terminal has this size, if that is due.
    pub open spec fn noted(self, rows: usize, cols: usize) -> Session {
        match self.recorder().due_event(rows, cols) {
            Some(event) => Session {
                events: self.events.push(event),
                last_size: Some((rows, cols)),
                ..self
            },
            None => self,
        }
    }

    /// A program that has just been started on a terminal of this size.
    pub open spec fn begun(rows: usize, cols: usize) -> Session {
        Session {
            program: Program {
                screen: Screen::initial(rows as nat, cols as nat, Seq::empty()),
                pending: Seq::empty(),
                alive: true,
            },
            log: Seq::empty(),
            events: Seq::empty(),
            last_size: None,
        }.noted(rows, cols)
    }

    /// The terminal takes the step, and it is recorded.
    pub open spec fn stepped(self, step: Step) -> Session {
        match step {
            Step::Output(bytes) => Session {
                program: self.program.wrote(bytes),
                log: self.log + bytes,
                ..self
            },
            Step::Size(rows, cols) => {
                let screen = self.program.screen.resize(rows as nat, cols as nat);
                Session {
                    program: Program { screen, ..self.program },
                    ..self.noted(rows, cols)
                }
            },
        }
    }

    /// The session after some steps.
    pub open spec fn after(rows: usize, cols: usize, steps: Seq<Step>) -> Session
        decreases steps.len(),
    {
        if steps.len() == 0 {
            Session::begun(rows, cols)
        } else {
            Session::after(rows, cols, steps.drop_last()).stepped(steps.last())
        }
    }

    /// Whether a record can tell of a step: the log does not get too long, and no size is
    /// empty. Before the first output the terminal must not get lower: that would move
    /// blank rows out of the screen, of which the record knows nothing.
    pub open spec fn can_record(self, step: Step) -> bool {
        match step {
            Step::Output(bytes) => self.log.len() + bytes.len() <= u64::MAX,
            Step::Size(rows, cols) => {
                &&& rows > 0
                &&& cols > 0
                &&& self.log.len() > 0 || rows >= self.program.screen.rows
            },
        }
    }

    /// The replay of what has been recorded, on a terminal that has another size at first.
    spec fn replayed(self, rows: nat, cols: nat) -> Replay {
        Replay::begun(self.events, rows, cols).feed_bytes(self.log)
    }

    /// The record is complete, and its replay shows what the terminal shows.
    spec fn faithful(self, rows: nat, cols: nat) -> bool {
        let screen = self.program.screen;
        let last = self.events.last();
        &&& self.log.len() <= u64::MAX
        &&& self.events.len() > 0
        &&& forall|i: int|
            0 <= i < self.events.len() ==> {
                &&& (#[trigger] self.events[i]).rows > 0
                &&& self.events[i].cols > 0
                &&& self.events[i].offset <= self.log.len()
            }
        &&& self.last_size == Some((last.rows, last.cols))
        &&& screen.rows == last.rows
        &&& screen.cols == last.cols
        &&& self.log.len() == 0 ==> screen == Screen::initial(
            last.rows as nat,
            last.cols as nat,
            Seq::empty(),
        )
        &&& self.replayed(rows, cols).next == self.events.len()
        &&& self.replayed(rows, cols).pending == self.program.pending
        &&& self.replayed(rows, cols).screen == screen
    }
}

// Laws
// ----

proof fn lemma_sizes_at_the_start(events: Seq<ResizeEvent>, next: nat, rows: nat, cols: nat)
    requires
        next <= events.len(),
        forall|i: int| 0 <= i < events.len() ==> (#[trigger] events[i]).offset == 0,
    ensures
        Replay::initial_size(events, next, rows, cols) == (if next < events.len() {
            (events.len(), events.last().rows as nat, events.last().cols as nat)
        } else {
            (next, rows, cols)
        }),
    decreases events.len() - next,
{
    if next < events.len() {
        let event = events[next as int];
        lemma_sizes_at_the_start(events, next + 1, event.rows as nat, event.cols as nat);
    }
}

proof fn lemma_started(events: Seq<ResizeEvent>, next: nat, rows: nat, cols: nat)
    requires
        next <= events.len(),
    ensures
        Replay::initial_size(events, next, rows, cols).0 <= events.len(),
    decreases events.len() - next,
{
    if next < events.len() && events[next as int].offset == 0 {
        let first = events[next as int];
        lemma_started(events, next + 1, first.rows as nat, first.cols as nat);
    }
}

proof fn lemma_size_later_on(
    events: Seq<ResizeEvent>,
    event: ResizeEvent,
    next: nat,
    rows: nat,
    cols: nat,
)
    requires
        next <= events.len(),
        event.offset > 0,
    ensures
        Replay::initial_size(events.push(event), next, rows, cols) == Replay::initial_size(
            events,
            next,
            rows,
            cols,
        ),
    decreases events.len() - next,
{
    if next < events.len() && events[next as int].offset == 0 {
        let first = events[next as int];
        lemma_size_later_on(events, event, next + 1, first.rows as nat, first.cols as nat);
    }
}

/// A replay with one more size change.
spec fn with_event(replay: Replay, event: ResizeEvent) -> Replay {
    Replay { events: replay.events.push(event), ..replay }
}

proof fn lemma_settled_with_event(replay: Replay, event: ResizeEvent)
    requires
        replay.next <= replay.events.len(),
    ensures
        with_event(replay, event).settled() == with_event(replay.settled(), event).settled(),
        replay.settled().next <= replay.events.len(),
    decreases replay.events.len() - replay.next,
{
    if replay.has_due() {
        let due = replay.events[replay.next as int];
        lemma_settled_with_event(
            Replay {
                next: replay.next + 1,
                screen: replay.screen.resize(due.rows as nat, due.cols as nat),
                ..replay
            },
            event,
        );
    }
}

proof fn lemma_fed_with_event(replay: Replay, event: ResizeEvent, bytes: Seq<u8>)
    requires
        replay.next <= replay.events.len(),
        replay.offset + bytes.len() <= event.offset,
    ensures
        with_event(replay, event).feed_bytes(bytes) == with_event(
            replay.feed_bytes(bytes),
            event,
        ).settled(),
        replay.feed_bytes(bytes).next <= replay.events.len(),
    decreases bytes.len(),
{
    if bytes.len() == 0 {
        lemma_settled_with_event(replay, event);
    } else {
        let before = replay.feed_bytes(bytes.drop_last());
        lemma_fed_with_event(replay, event, bytes.drop_last());
        lemma_fed(replay, bytes.drop_last());
        assert(!with_event(before, event).has_due());
        let d = decoded(before.pending.push(bytes.last()));
        let fed = Replay {
            offset: before.offset + 1,
            pending: d.rest,
            screen: before.screen.feed(d.text),
            ..before
        };
        lemma_settled_with_event(fed, event);
        assert(replay.feed_bytes(bytes) == fed.settled());
        assert(with_event(replay, event).feed_bytes(bytes) == with_event(fed, event).settled());
    }
}

proof fn lemma_blank_screen_grows(rows: nat, cols: nat, new_rows: nat, new_cols: nat)
    requires
        0 < rows <= new_rows,
        cols > 0,
        new_cols > 0,
    ensures
        Screen::initial(rows, cols, Seq::empty()).resize(new_rows, new_cols) == Screen::initial(
            new_rows,
            new_cols,
            Seq::empty(),
        ),
{
    reveal(Screen::resize);
    let screen = Screen::initial(rows, cols, Seq::empty());
    let grown = screen.resize(new_rows, new_cols);
    let blank = Screen::initial(new_rows, new_cols, Seq::empty());
    assert(grown.history =~= blank.history);
    assert(grown.lines.len() == new_rows);
    assert forall|i: int| 0 <= i < new_rows implies grown.lines[i] == blank.lines[i] by {
        assert(grown.lines[i] =~= blank.lines[i]);
    }
    assert(grown.lines =~= blank.lines);
}

proof fn lemma_begun(rows: usize, cols: usize, view_rows: nat, view_cols: nat)
    requires
        rows > 0,
        cols > 0,
    ensures
        Session::begun(rows, cols).faithful(view_rows, view_cols),
{
    let session = Session::begun(rows, cols);
    lemma_sizes_at_the_start(session.events, 0, view_rows, view_cols);
}

proof fn lemma_output(session: Session, bytes: Seq<u8>, rows: nat, cols: nat)
    requires
        session.faithful(rows, cols),
        session.can_record(Step::Output(bytes)),
    ensures
        session.stepped(Step::Output(bytes)).faithful(rows, cols),
{
    let begun = Replay::begun(session.events, rows, cols);
    let replayed = session.replayed(rows, cols);
    let later = session.stepped(Step::Output(bytes));
    let d = decoded(session.program.pending + bytes);
    replaying_in_parts(begun, session.log, bytes);
    lemma_fed(begun, session.log);
    feed_keeps_history(session.program.screen, d.text);
    if bytes.len() == 0 {
        lemma_pending(begun, session.log);
        assert(session.log + bytes =~= session.log);
        assert(session.program.pending + bytes =~= session.program.pending);
        assert(d.text =~= Seq::<char>::empty());
        assert(later.program =~= session.program);
    } else {
        lemma_chunk(replayed, bytes);
        let fed = Replay {
            offset: replayed.offset + bytes.len(),
            pending: d.rest,
            screen: replayed.screen.feed(d.text),
            ..replayed
        };
        assert(!fed.has_due());
        assert(later.replayed(rows, cols) == fed);
    }
    assert forall|i: int| 0 <= i < later.events.len() implies (#[trigger] later.events[i]).offset
        <= later.log.len() by {
        assert(session.events[i].offset <= session.log.len());
    }
}

proof fn lemma_size(session: Session, new_rows: usize, new_cols: usize, rows: nat, cols: nat)
    requires
        session.faithful(rows, cols),
        session.can_record(Step::Size(new_rows, new_cols)),
    ensures
        session.stepped(Step::Size(new_rows, new_cols)).faithful(rows, cols),
{
    reveal(Screen::resize);
    let later = session.stepped(Step::Size(new_rows, new_cols));
    match session.recorder().due_event(new_rows, new_cols) {
        None => {
            assert(later =~= session);
        },
        Some(event) => {
            let begun = Replay::begun(session.events, rows, cols);
            let last = session.events.last();
            lemma_fed(begun, session.log);
            assert(later.events.last() == event);
            if session.log.len() == 0 {
                lemma_sizes_at_the_start(later.events, 0, rows, cols);
                lemma_blank_screen_grows(
                    last.rows as nat,
                    last.cols as nat,
                    new_rows as nat,
                    new_cols as nat,
                );
                lemma_sizes_at_the_start(session.events, 0, rows, cols);
            } else {
                lemma_size_later_on(session.events, event, 0, rows, cols);
                lemma_started(session.events, 0, rows, cols);
                assert(Replay::begun(later.events, rows, cols) == with_event(begun, event));
                lemma_fed_with_event(begun, event, session.log);
                let due = with_event(session.replayed(rows, cols), event);
                assert(due.has_due());
                assert(due.settled() == (Replay {
                    next: due.next + 1,
                    screen: due.screen.resize(new_rows as nat, new_cols as nat),
                    ..due
                }).settled());
            }
        },
    }
}

proof fn lemma_session(
    rows: usize,
    cols: usize,
    steps: Seq<Step>,
    view_rows: nat,
    view_cols: nat,
)
    requires
        rows > 0,
        cols > 0,
        forall|i: int|
            0 <= i < steps.len() ==> #[trigger] Session::after(
                rows,
                cols,
                steps.take(i),
            ).can_record(steps[i]),
    ensures
        Session::after(rows, cols, steps).faithful(view_rows, view_cols),
    decreases steps.len(),
{
    if steps.len() == 0 {
        lemma_begun(rows, cols, view_rows, view_cols);
    } else {
        let before = steps.drop_last();
        assert forall|i: int| 0 <= i < before.len() implies #[trigger] Session::after(
            rows,
            cols,
            before.take(i),
        ).can_record(before[i]) by {
            assert(before.take(i) =~= steps.take(i));
            assert(Session::after(rows, cols, steps.take(i)).can_record(steps[i]));
        }
        lemma_session(rows, cols, before, view_rows, view_cols);
        let session = Session::after(rows, cols, before);
        assert(steps.take(steps.len() - 1) =~= before);
        assert(session.can_record(steps.last()));
        match steps.last() {
            Step::Output(bytes) => lemma_output(session, bytes, view_rows, view_cols),
            Step::Size(r, c) => lemma_size(session, r, c, view_rows, view_cols),
        }
    }
}

/// The replay of a recorded session shows what the program's terminal showed: the same
/// screen and the same history, while the program runs and after it has ended, whatever the
/// size of the terminal that the replay is begun on.
pub proof fn replay_shows_what_was_shown(
    rows: usize,
    cols: usize,
    steps: Seq<Step>,
    view_rows: nat,
    view_cols: nat,
)
    requires
        rows > 0,
        cols > 0,
        forall|i: int|
            0 <= i < steps.len() ==> #[trigger] Session::after(
                rows,
                cols,
                steps.take(i),
            ).can_record(steps[i]),
    ensures
        ({
            let session = Session::after(rows, cols, steps);
            let events = recorded_events(record_of(session.events));
            &&& events == session.events
            &&& Replay::begun(events, view_rows, view_cols).feed_bytes(session.log).screen
                == session.program.screen
            &&& Replay::of(session.log, events, view_rows, view_cols).screen
                == session.program.ended().screen
        }),
{
    lemma_session(rows, cols, steps, view_rows, view_cols);
    recorded_events_are_read(Session::after(rows, cols, steps).events);
    lemma_fed(
        Replay::begun(Session::after(rows, cols, steps).events, view_rows, view_cols),
        Session::after(rows, cols, steps).log,
    );
}

} // verus!
