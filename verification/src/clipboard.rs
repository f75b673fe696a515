//! The system clipboard: the commands that reach it, and which of them is used.

use vstd::prelude::*;

verus! {

/// Which way a text goes.
#[derive(Debug, Clone, Copy, PartialEq, Eq, Structural)]
pub enum Transfer {
    /// Into the clipboard.
    Copy,
    /// Out of the clipboard.
    Paste,
}

/// A command that reaches the clipboard.
#[derive(Debug)]
pub struct ClipboardCommand {
    pub program: &'static str,
    pub args: Vec<&'static str>,
}

/// What became of running a command.
#[derive(Debug)]
pub enum Attempt {
    Succeeded,
    /// It ended with the given bad status.
    Exited(String),
    /// It is not there, as the given error tells.
    Missing(String),
    /// It could not be run, or not be spoken to, as the given error tells.
    Broken(String),
}

/// What follows an attempt.
#[derive(Debug)]
pub enum ClipboardStep {
    /// Run the command of the given number.
    Try(usize),
    Done,
    Failed(String),
}

/// The number of commands that are tried.
pub const COMMAND_COUNT: usize = 4;

/// The programs, in the order in which they are tried.
pub open spec fn programs(transfer: Transfer) -> Seq<Seq<char>> {
    match transfer {
        Transfer::Copy => seq!["pbcopy"@, "wl-copy"@, "xclip"@, "xsel"@],
        Transfer::Paste => seq!["pbpaste"@, "wl-paste"@, "xclip"@, "xsel"@],
    }
}

/// What the programs are given.
pub open spec fn arguments(transfer: Transfer) -> Seq<Seq<Seq<char>>> {
    match transfer {
        Transfer::Copy => seq![
            seq![],
            seq![],
            seq!["-selection"@, "clipboard"@],
            seq!["--clipboard"@, "--input"@],
        ],
        Transfer::Paste => seq![
            seq![],
            seq!["-n"@],
            seq!["-selection"@, "clipboard"@, "-o"@],
            seq!["--clipboard"@, "--output"@],
        ],
    }
}

/// The command of the given number.
pub fn clipboard_command(transfer: Transfer, index: usize) -> (r: ClipboardCommand)
    requires
        index < COMMAND_COUNT,
    ensures
        r.program@ == programs(transfer)[index as int],
        r.args@.map_values(|arg: &'static str| arg@) == arguments(transfer)[index as int],
{
    let (program, args): (&'static str, Vec<&'static str>) = match transfer {
        Transfer::Copy => {
            if index == 0 {
                ("pbcopy", Vec::new())
            } else if index == 1 {
                ("wl-copy", Vec::new())
            } else if index == 2 {
                ("xclip", vec!["-selection", "clipboard"])
            } else {
                ("xsel", vec!["--clipboard", "--input"])
            }
        },
        Transfer::Paste => {
            if index == 0 {
                ("pbpaste", Vec::new())
            } else if index == 1 {
                ("wl-paste", vec!["-n"])
            } else if index == 2 {
                ("xclip", vec!["-selection", "clipboard", "-o"])
            } else {
                ("xsel", vec!["--clipboard", "--output"])
            }
        },
    };
    assert(args@.map_values(|arg: &'static str| arg@) =~= arguments(transfer)[index as int]);
    ClipboardCommand { program, args }
}

/// What follows an attempt, with the text of an error.
pub enum Follow {
    Try(int),
    Done,
    Failed(Seq<char>),
}

impl View for ClipboardStep {
    type V = Follow;

    open spec fn view(&self) -> Follow {
        match self {
            ClipboardStep::Try(index) => Follow::Try(*index as int),
            ClipboardStep::Done => Follow::Done,
            ClipboardStep::Failed(error) => Follow::Failed(error@),
        }
    }
}

/// The error of an attempt.
pub open spec fn attempt_error(program: Seq<char>, attempt: Attempt) -> Seq<char> {
    match attempt {
        Attempt::Succeeded => Seq::empty(),
        Attempt::Exited(status) => program + " exited with status "@ + status@,
        Attempt::Missing(error) => error@,
        Attempt::Broken(error) => error@,
    }
}

/// Whether the next command is worth a try after an attempt.
pub open spec fn passes_on(attempt: Attempt) -> bool {
    attempt is Exited || attempt is Missing
}

/// What follows the attempt at the command of the given number: the next command if this
/// one failed or is not there and there is a next one.
pub open spec fn follow(transfer: Transfer, index: int, attempt: Attempt) -> Follow {
    if attempt is Succeeded {
        Follow::Done
    } else if passes_on(attempt) && index + 1 < COMMAND_COUNT {
        Follow::Try(index + 1)
    } else {
        Follow::Failed(attempt_error(programs(transfer)[index], attempt))
    }
}

/// What follows the attempt at the command of the given number.
pub fn after_attempt(transfer: Transfer, index: usize, attempt: Attempt) -> (r: ClipboardStep)
    requires
        index < COMMAND_COUNT,
    ensures
        r@ == follow(transfer, index as int, attempt),
{
    let last: bool = index + 1 == COMMAND_COUNT;
    match attempt {
        Attempt::Succeeded => ClipboardStep::Done,
        Attempt::Exited(status) => {
            if last {
                let command: ClipboardCommand = clipboard_command(transfer, index);
                let mut error: String = command.program.to_owned();
                error.append(" exited with status ");
                error.append(status.as_str());
                ClipboardStep::Failed(error)
            } else {
                ClipboardStep::Try(index + 1)
            }
        },
        Attempt::Missing(error) => {
            if last {
                ClipboardStep::Failed(error)
            } else {
                ClipboardStep::Try(index + 1)
            }
        },
        Attempt::Broken(error) => ClipboardStep::Failed(error),
    }
}

// Laws
// ----

/// What comes of trying the commands from the given number on, where the attempt at each
/// would end as given.
pub open spec fn tried_from(transfer: Transfer, index: int, attempts: Seq<Attempt>) -> Follow
    decreases COMMAND_COUNT - index,
{
    match follow(transfer, index, attempts[index]) {
        Follow::Try(next) => tried_from(transfer, next, attempts),
        end => end,
    }
}

/// The first command that does not pass on decides: it succeeds or breaks the search off,
/// whatever comes after it.
pub proof fn first_usable_command_decides(
    transfer: Transfer,
    from: int,
    k: int,
    attempts: Seq<Attempt>,
)
    requires
        0 <= from <= k < COMMAND_COUNT,
        forall|i: int| from <= i < k ==> passes_on(#[trigger] attempts[i]),
        !passes_on(attempts[k]),
    ensures
        tried_from(transfer, from, attempts) == (if attempts[k] is Succeeded {
            Follow::Done
        } else {
            Follow::Failed(attempt_error(programs(transfer)[k], attempts[k]))
        }),
    decreases k - from,
{
    if from < k {
        assert(passes_on(attempts[from]));
        first_usable_command_decides(transfer, from + 1, k, attempts);
    }
}

/// When every command passes on, the error of the last is told.
pub proof fn last_error_is_told(transfer: Transfer, from: int, attempts: Seq<Attempt>)
    requires
        0 <= from < COMMAND_COUNT,
        forall|i: int| from <= i < COMMAND_COUNT ==> passes_on(#[trigger] attempts[i]),
    ensures
        tried_from(transfer, from, attempts) == Follow::Failed(
            attempt_error(
                programs(transfer)[COMMAND_COUNT - 1],
                attempts[COMMAND_COUNT - 1],
            ),
        ),
    decreases COMMAND_COUNT - from,
{
    assert(passes_on(attempts[from]));
    if from + 1 < COMMAND_COUNT {
        last_error_is_told(transfer, from + 1, attempts);
    }
}

} // verus!
