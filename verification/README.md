# logsplit

Terminal transcripts: recording what a program writes to its terminal, replaying it on a
virtual terminal, and reading it in a viewer, on its own or beside the running program.

The library under `src/` is written in Verus. Its functions state in `requires` and
`ensures` what they do, over mathematical models of the terminal, the viewer and the views,
and the proofs are checked by the verifier. The two programs under `app/` are ordinary Rust:
they read files, run commands and draw, and leave every decision to the library.

## The library

- `text`, `utf8`: numbers, separators and white space; decoding UTF-8 that comes in pieces.
- `cell`, `screen`, `terminal`: cells and rows; the model of a terminal; the virtual terminal.
- `transcript`, `replay`: recorded size changes; replaying a log, and following one that grows.
- `session`: a recorded run of a program, and that its replay shows what was shown.
- `selection`: places, motions over columns and words, the selected text, its highlighting.
- `viewer`: the layout of a log, scrolling, searching, the status line.
- `keys`, `commands`, `events`: keys and what they ask for; batches of events.
- `render`: drawing steps.
- `split_model`, `split`: the split view, as a model and in code.
- `pager`: the standalone viewer.
- `launch`, `clipboard`: the names of logs and the choice of a shell; the clipboard's commands.

The laws that relate several functions are public proof functions at the end of each module.

What is taken for granted: the width of a character (`unicode-width`), the lower-case form
of a text, which characters are letters or digits, appending a character to a string, and
the character of a code point. Each is declared where it is used, with what is claimed of it.

## The programs

- `logsplit COMMAND...` runs a command on the right and shows its log on the left.
- `logsplit-rs [--follow] [--dump] [--tail N] [--rows N] [--cols N] LOG` shows a log.
