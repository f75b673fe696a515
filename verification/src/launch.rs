//! Starting a command: the shell that runs it, and the name of its log.

use crate::text::{chars_of, decimal, is_white_space, push_chars, push_decimal, white_space};
use crate::viewer::{file_name, find_file_name};
use vstd::prelude::*;

verus! {

/// Whether a character may stand in the name of a log.
pub open spec fn is_name_char(ch: char) -> bool {
    ||| '0' <= ch <= '9'
    ||| 'A' <= ch <= 'Z'
    ||| 'a' <= ch <= 'z'
    ||| ch == '.'
    ||| ch == '_'
    ||| ch == '-'
}

/// A part of a name: other characters become underscores, and nothing becomes `cmd`.
pub open spec fn sanitized(value: Seq<char>) -> Seq<char> {
    if value.len() == 0 {
        "cmd"@
    } else {
        Seq::new(
            value.len(),
            |i: int|
                if is_name_char(value[i]) {
                    value[i]
                } else {
                    '_'
                },
        )
    }
}

fn sanitize_chars(value: &[char]) -> (r: String)
    ensures
        r@ == sanitized(value@),
{
    if value.len() == 0 {
        return "cmd".to_owned();
    }
    let mut out: String = String::new();
    let mut i: usize = 0;
    while i < value.len()
        invariant
            i <= value@.len(),
            out@.len() == i,
            forall|k: int|
                0 <= k < i ==> out@[k] == (if is_name_char(value@[k]) {
                    value@[k]
                } else {
                    '_'
                }),
        decreases value@.len() - i,
    {
        let ch: char = value[i];
        if ('0' <= ch && ch <= '9') || ('A' <= ch && ch <= 'Z') || ('a' <= ch && ch <= 'z') || ch
            == '.' || ch == '_' || ch == '-' {
            out.push(ch);
        } else {
            out.push('_');
        }
        i += 1;
    }
    assert(out@ =~= sanitized(value@));
    out
}

/// Makes a text fit to be part of a name.
pub fn sanitize_component(value: &str) -> (r: String)
    ensures
        r@ == sanitized(value@),
{
    let chars: Vec<char> = chars_of(value);
    sanitize_chars(chars.as_slice())
}

/// The place of the first character from `from` on that is white space, or is not.
pub open spec fn space_from(text: Seq<char>, from: int, space: bool) -> int
    decreases text.len() - from,
{
    if from >= text.len() || white_space(text[from]) == space {
        from
    } else {
        space_from(text, from + 1, space)
    }
}

/// The first word of a text, if there is one.
pub open spec fn first_word(text: Seq<char>) -> Option<Seq<char>> {
    let start = space_from(text, 0, false);
    if start >= text.len() {
        None
    } else {
        Some(text.subrange(start, space_from(text, start, true)))
    }
}

fn find_space(text: &Vec<char>, from: usize, space: bool) -> (r: usize)
    requires
        from <= text@.len(),
    ensures
        r == space_from(text@, from as int, space),
        from <= r <= text@.len(),
{
    let mut i: usize = from;
    while i < text.len() && is_white_space(text[i]) != space
        invariant
            from <= i <= text@.len(),
            space_from(text@, from as int, space) == space_from(text@, i as int, space),
        decreases text@.len() - i,
    {
        i += 1;
    }
    i
}

/// The part of a log's name that tells the command: the name of the file that the first
/// word of the command line is the path of.
pub open spec fn slug(line: Seq<char>) -> Seq<char> {
    let first = match first_word(line) {
        Some(word) => word,
        None => "cmd"@,
    };
    sanitized(
        match file_name(first) {
            Some(name) => name,
            None => first,
        },
    )
}

/// The part of a log's name that tells the command.
pub fn command_slug(line: &str) -> (r: String)
    ensures
        r@ == slug(line@),
{
    let chars: Vec<char> = chars_of(line);
    let start: usize = find_space(&chars, 0, false);
    let mut first: String = String::new();
    if start < chars.len() {
        let end: usize = find_space(&chars, start, true);
        push_chars(
            &mut first,
            vstd::slice::slice_subrange(chars.as_slice(), start, end),
        );
        assert(first@ =~= chars@.subrange(start as int, end as int));
    } else {
        first.append("cmd");
        assert(first@ =~= "cmd"@);
    }
    match find_file_name(first.as_str()) {
        Some(name) => sanitize_chars(name.as_slice()),
        None => sanitize_component(first.as_str()),
    }
}

/// The name of a log: the command, the session, the window and the time.
pub open spec fn log_name(
    line: Seq<char>,
    session: Option<Seq<char>>,
    window: Option<Seq<char>>,
    seconds: nat,
) -> Seq<char> {
    slug(line) + "-"@ + sanitized(
        match session {
            Some(name) => name,
            None => "nosession"@,
        },
    ) + "-w"@ + (match window {
        Some(name) => name,
        None => "noscreen"@,
    }) + "-"@ + decimal(seconds) + ".log"@
}

/// The name of the log of a command line. The session and the window are those of the
/// terminal multiplexer that it runs in, if any; the time is in seconds since the epoch.
pub fn logfile_name(line: &str, session: Option<&str>, window: Option<&str>, seconds: u64) -> (r:
    String)
    ensures
        r@ == log_name(
            line@,
            match session {
                Some(name) => Some(name@),
                None => None,
            },
            match window {
                Some(name) => Some(name@),
                None => None,
            },
            seconds as nat,
        ),
{
    let mut name: String = command_slug(line);
    name.append("-");
    let session_part: String = sanitize_component(
        match session {
            Some(text) => text,
            None => "nosession",
        },
    );
    name.append(session_part.as_str());
    name.append("-w");
    name.append(
        match window {
            Some(text) => text,
            None => "noscreen",
        },
    );
    name.append("-");
    push_decimal(&mut name, seconds);
    name.append(".log");
    name
}

/// A value that is given and not empty.
pub open spec fn given(value: Option<&str>) -> bool {
    value is Some && value->0@.len() > 0
}

/// The shell that runs a command: the one asked for, or else the one configured for this
/// program, or else the user's, or else `/bin/sh`.
pub fn resolve_shell_path_from(
    args_shell: Option<&str>,
    logsplit_shell: Option<&str>,
    shell: Option<&str>,
) -> (r: String)
    ensures
        r@ == (if given(args_shell) {
            args_shell->0@
        } else if given(logsplit_shell) {
            logsplit_shell->0@
        } else if given(shell) {
            shell->0@
        } else {
            "/bin/sh"@
        }),
{
    match args_shell {
        Some(path) => {
            if !path.is_empty() {
                return path.to_owned();
            }
        },
        None => {},
    }
    match logsplit_shell {
        Some(path) => {
            if !path.is_empty() {
                return path.to_owned();
            }
        },
        None => {},
    }
    match shell {
        Some(path) => {
            if !path.is_empty() {
                return path.to_owned();
            }
        },
        None => {},
    }
    "/bin/sh".to_owned()
}

// Laws
// ----

/// A part of a name holds name characters only, and is never empty.
pub proof fn sanitized_is_a_name(value: Seq<char>)
    ensures
        sanitized(value).len() > 0,
        forall|i: int|
            0 <= i < sanitized(value).len() ==> is_name_char(#[trigger] sanitized(value)[i]),
{
    reveal_strlit("cmd");
}

/// What is a name already stays as it is.
pub proof fn sanitizing_settles(value: Seq<char>)
    ensures
        sanitized(sanitized(value)) == sanitized(value),
{
    sanitized_is_a_name(value);
    assert(sanitized(sanitized(value)) =~= sanitized(value));
}

/// The log of a command is named after the file that the first word of its command line is
/// the path of, wherever that file is, and whatever stands behind the word.
pub proof fn logs_are_named_after_the_command(
    directory: Seq<char>,
    name: Seq<char>,
    rest: Seq<char>,
    space: char,
)
    requires
        name.len() > 0,
        forall|i: int| 0 <= i < name.len() ==> is_name_char(#[trigger] name[i]),
        name != seq!['.'],
        name != seq!['.', '.'],
        forall|i: int| 0 <= i < directory.len() ==> !white_space(#[trigger] directory[i]),
        white_space(space),
    ensures
        slug(name) == name,
        slug(seq![space] + name) == name,
        slug(name.push(space) + rest) == name,
        slug(directory.push('/') + name) == name,
        slug(seq![space]) == "cmd"@,
{
    assert forall|i: int| 0 <= i < name.len() implies #[trigger] name[i] != '/' && !white_space(
        name[i],
    ) by {
        assert(is_name_char(name[i]));
    }
    crate::viewer::file_names_stand_behind_the_last_slash(directory, name);
    let word = directory.push('/') + name;
    assert forall|i: int| 0 <= i < word.len() implies !white_space(#[trigger] word[i]) by {
        if i < directory.len() {
            assert(word[i] == directory[i]);
        } else if i > directory.len() {
            assert(word[i] == name[i - directory.len() - 1]);
        }
    }
    assert(sanitized(name) =~= name);
    lemma_first_word(name, 0, name.len() as int);
    assert(name.subrange(0, name.len() as int) =~= name);
    lemma_first_word(word, 0, word.len() as int);
    assert(word.subrange(0, word.len() as int) =~= word);
    let behind = seq![space] + name;
    assert forall|i: int| 1 <= i < behind.len() implies !white_space(#[trigger] behind[i]) by {
        assert(behind[i] == name[i - 1]);
    }
    lemma_first_word(behind, 1, behind.len() as int);
    assert(behind.subrange(1, behind.len() as int) =~= name);
    let before = name.push(space) + rest;
    assert forall|i: int| 0 <= i < name.len() implies !white_space(#[trigger] before[i]) by {
        assert(before[i] == name[i]);
    }
    lemma_first_word(before, 0, name.len() as int);
    assert(before.subrange(0, name.len() as int) =~= name);
    assert(space_from(seq![space], 1, false) == 1);
    assert(space_from(seq![space], 0, false) == 1);
    reveal_strlit("cmd");
    let cmd = "cmd"@;
    assert forall|i: int| 0 <= i < cmd.len() implies #[trigger] cmd[i] != '/' by {}
    assert(cmd.len() == 3);
    assert(cmd != seq!['.'] && cmd != seq!['.', '.']) by {
        assert(cmd.len() != seq!['.'].len());
        assert(cmd.len() != seq!['.', '.'].len());
    }
    crate::viewer::file_names_stand_behind_the_last_slash(Seq::empty(), cmd);
    assert(sanitized(cmd) =~= cmd);
}

proof fn lemma_first_word(text: Seq<char>, from: int, to: int)
    requires
        0 <= from < to <= text.len(),
        forall|i: int| 0 <= i < from ==> white_space(#[trigger] text[i]),
        forall|i: int| from <= i < to ==> !white_space(#[trigger] text[i]),
        to < text.len() ==> white_space(text[to]),
    ensures
        first_word(text) == Some(text.subrange(from, to)),
{
    lemma_space_from(text, 0, from, false);
    lemma_space_from(text, from, to, true);
}

proof fn lemma_space_from(text: Seq<char>, from: int, to: int, space: bool)
    requires
        0 <= from <= to <= text.len(),
        forall|i: int| from <= i < to ==> white_space(#[trigger] text[i]) != space,
        to < text.len() ==> white_space(text[to]) == space,
    ensures
        space_from(text, from, space) == to,
    decreases to - from,
{
    if from < to {
        lemma_space_from(text, from + 1, to, space);
    }
}

/// The parts of a log's name are the command, the session, the window and the time, in this
/// order.
pub proof fn log_names_tell_the_run(
    line: Seq<char>,
    session: Seq<char>,
    window: Seq<char>,
    seconds: nat,
)
    ensures
        log_name(line, Some(session), Some(window), seconds) == slug(line) + "-"@ + sanitized(
            session,
        ) + "-w"@ + window + "-"@ + decimal(seconds) + ".log"@,
        log_name(line, None, Some(window), seconds) == log_name(
            line,
            Some("nosession"@),
            Some(window),
            seconds,
        ),
        log_name(line, Some(session), None, seconds) == log_name(
            line,
            Some(session),
            Some("noscreen"@),
            seconds,
        ),
{
}

} // verus!
