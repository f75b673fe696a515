use logsplit_rs::commands::{
    left_command, pager_command, pager_selection_command, selection_command, Command,
    ScreenPosition,
};
use logsplit_rs::keys::{encode_key, Key, KeyCode, KeyModifiers, Prompt};
use logsplit_rs::{SelectionMode, WordMotion};

const NONE: KeyModifiers = KeyModifiers { shift: false, control: false, alt: false, other: false };

fn key(code: KeyCode) -> Key {
    Key { code, modifiers: NONE }
}

fn ch(ch: char) -> Key {
    key(KeyCode::Char(ch))
}

fn shift(ch: char) -> Key {
    Key { code: KeyCode::Char(ch), modifiers: KeyModifiers { shift: true, ..NONE } }
}

fn ctrl(ch: char) -> Key {
    Key { code: KeyCode::Char(ch), modifiers: KeyModifiers { control: true, ..NONE } }
}

fn alt(ch: char) -> Key {
    Key { code: KeyCode::Char(ch), modifiers: KeyModifiers { alt: true, ..NONE } }
}

#[test]
fn modifiers_are_told_apart() {
    assert!(NONE.is_none() && !NONE.is_only_shift() && !NONE.is_only_control());
    assert!(shift('A').modifiers.is_only_shift());
    assert!(ctrl('a').is_control('a') && !ctrl('a').is_plain('a') && ctrl('a').is_char('a'));
    assert!(!Key { code: KeyCode::Char('a'), modifiers: KeyModifiers { other: true, ..NONE } }
        .is_plain('a'));
}

#[test]
fn keys_are_sent_as_a_terminal_sends_them() {
    let sent = |key: Key| encode_key(key).unwrap();
    assert_eq!(sent(ch('a')), b"a");
    assert_eq!(sent(shift('A')), b"A");
    assert_eq!(sent(ch('\u{4e16}')), "\u{4e16}".as_bytes());
    assert_eq!(sent(ch('\u{e9}')), "\u{e9}".as_bytes());
    assert_eq!(sent(ch('\u{1f600}')), "\u{1f600}".as_bytes());
    assert_eq!(sent(ctrl('a')), [1]);
    assert_eq!(sent(ctrl('z')), [26]);
    assert_eq!(sent(alt('x')), b"\x1bx");
    assert_eq!(sent(key(KeyCode::Enter)), b"\r");
    assert_eq!(sent(key(KeyCode::Backspace)), [127]);
    assert_eq!(sent(key(KeyCode::Tab)), b"\t");
    assert_eq!(sent(key(KeyCode::BackTab)), b"\x1b[Z");
    assert_eq!(sent(key(KeyCode::Esc)), b"\x1b");
    assert_eq!(sent(key(KeyCode::Left)), b"\x1b[D");
    assert_eq!(sent(key(KeyCode::Right)), b"\x1b[C");
    assert_eq!(sent(key(KeyCode::Up)), b"\x1b[A");
    assert_eq!(sent(key(KeyCode::Down)), b"\x1b[B");
    assert_eq!(sent(key(KeyCode::Home)), b"\x1b[H");
    assert_eq!(sent(key(KeyCode::End)), b"\x1b[F");
    assert_eq!(sent(key(KeyCode::PageUp)), b"\x1b[5~");
    assert_eq!(sent(key(KeyCode::PageDown)), b"\x1b[6~");
    assert_eq!(sent(key(KeyCode::Delete)), b"\x1b[3~");
    assert_eq!(sent(key(KeyCode::Insert)), b"\x1b[2~");
    assert_eq!(encode_key(key(KeyCode::Other)), None);
}

#[test]
fn lines_are_edited() {
    let mut line = Prompt::new();
    for typed in [ch('a'), shift('B'), ctrl('c'), alt('d'), ch('\u{7}'), ch('\u{4e16}')] {
        assert!(!line.handle_key(typed));
    }
    assert_eq!(line.text(), "aB\u{4e16}");
    assert!(!line.handle_key(key(KeyCode::Backspace)));
    assert!(!line.handle_key(key(KeyCode::Left)));
    assert_eq!(line.text(), "aB");
    assert!(line.handle_key(key(KeyCode::Enter)));
    assert_eq!(line.text(), "aB");
    assert!(line.handle_key(key(KeyCode::Esc)));
    assert_eq!(line.text(), "");
    assert!(!line.handle_key(key(KeyCode::Backspace)));
    assert_eq!(line.text(), "");
}

#[test]
fn log_pane_keys() {
    let cases = [
        (ch('v'), Command::Select(SelectionMode::Character)),
        (shift('V'), Command::Select(SelectionMode::Line)),
        (ch('p'), Command::Paste),
        (shift('P'), Command::Paste),
        (ch('q'), Command::QuitHint),
        (key(KeyCode::Down), Command::Row { forward: true }),
        (key(KeyCode::Enter), Command::Row { forward: true }),
        (ch('j'), Command::Row { forward: true }),
        (ctrl('n'), Command::Row { forward: true }),
        (ch('k'), Command::Row { forward: false }),
        (ctrl('e'), Command::View { forward: true }),
        (ctrl('y'), Command::View { forward: false }),
        (ch('h'), Command::Column { forward: false }),
        (key(KeyCode::Right), Command::Column { forward: true }),
        (ch('w'), Command::Word(WordMotion::ForwardStart)),
        (ch('e'), Command::Word(WordMotion::ForwardEnd)),
        (ch('b'), Command::Word(WordMotion::BackwardStart)),
        (ch(' '), Command::Page { forward: true }),
        (ch('f'), Command::Page { forward: true }),
        (ctrl('f'), Command::Page { forward: true }),
        (ctrl('b'), Command::Page { forward: false }),
        (key(KeyCode::PageUp), Command::Page { forward: false }),
        (ch('d'), Command::HalfPage { forward: true }),
        (ctrl('u'), Command::HalfPage { forward: false }),
        (ch('0'), Command::LineEdge { to_end: false }),
        (shift('$'), Command::LineEdge { to_end: true }),
        (ch('g'), Command::FileEdge { to_end: false }),
        (key(KeyCode::Home), Command::FileEdge { to_end: false }),
        (shift('G'), Command::FileEdge { to_end: true }),
        (shift('H'), Command::Screen(ScreenPosition::Top)),
        (shift('M'), Command::Screen(ScreenPosition::Middle)),
        (shift('L'), Command::Screen(ScreenPosition::Bottom)),
        (shift('F'), Command::Follow),
        (ctrl('c'), Command::StopFollow),
        (ch('r'), Command::Reload),
        (ch('/'), Command::Search),
        (ch('n'), Command::Repeat { forward: true }),
        (shift('N'), Command::Repeat { forward: false }),
        (shift('?'), Command::Help),
        (ch('z'), Command::Ignore),
        (ctrl('r'), Command::Ignore),
        (key(KeyCode::Esc), Command::Ignore),
    ];
    for (pressed, command) in cases {
        assert_eq!(left_command(pressed), command, "{pressed:?}");
    }
}

#[test]
fn selection_keys() {
    assert_eq!(selection_command(key(KeyCode::Esc)), Command::Cancel);
    assert_eq!(selection_command(ch('y')), Command::Copy);
    assert_eq!(selection_command(shift('Y')), Command::Copy);
    assert_eq!(selection_command(ch('w')), Command::Word(WordMotion::ForwardStart));
    assert_eq!(selection_command(ch('j')), Command::Row { forward: true });
    assert_eq!(pager_selection_command(key(KeyCode::Esc)), Command::Cancel);
    assert_eq!(pager_selection_command(ch('y')), Command::Copy);
    assert_eq!(pager_selection_command(ch('l')), Command::Column { forward: true });
    assert_eq!(pager_selection_command(shift('$')), Command::LineEdge { to_end: true });
}

#[test]
fn standalone_viewer_keys() {
    let cases = [
        (ch('q'), Command::Quit),
        (ch('j'), Command::Row { forward: true }),
        (key(KeyCode::Down), Command::Row { forward: true }),
        (key(KeyCode::Enter), Command::Row { forward: true }),
        (ctrl('n'), Command::Row { forward: true }),
        (ctrl('e'), Command::Row { forward: true }),
        (ch('k'), Command::Row { forward: false }),
        (key(KeyCode::Up), Command::Row { forward: false }),
        (ctrl('y'), Command::Row { forward: false }),
        (ch(' '), Command::Page { forward: true }),
        (key(KeyCode::PageDown), Command::Page { forward: true }),
        (ch('b'), Command::Page { forward: false }),
        (ctrl('b'), Command::Page { forward: false }),
        (ch('d'), Command::HalfPage { forward: true }),
        (ch('u'), Command::HalfPage { forward: false }),
        (ch('g'), Command::FileEdge { to_end: false }),
        (key(KeyCode::End), Command::FileEdge { to_end: true }),
        (shift('F'), Command::Follow),
        (ctrl('c'), Command::StopFollow),
        (ch('r'), Command::Reload),
        (ch('/'), Command::Search),
        (ch('n'), Command::Repeat { forward: true }),
        (shift('N'), Command::Repeat { forward: false }),
        (ch('v'), Command::Select(SelectionMode::Character)),
        (shift('V'), Command::Select(SelectionMode::Line)),
        (ch('x'), Command::Ignore),
    ];
    for (pressed, command) in cases {
        assert_eq!(pager_command(pressed), command, "{pressed:?}");
    }
}
