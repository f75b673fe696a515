use logsplit_rs::keys::{Key, KeyCode, KeyModifiers, Prompt};
use logsplit_rs::render::DrawOp;
use logsplit_rs::replay::{LogUpdate, Recording};
use logsplit_rs::split::{
    apply_cursor_highlight, draw_prompt, reverse_status_cells, selection_label, split_dims, Action,
    Pane, PaneMsg, SplitView,
};
use logsplit_rs::split_model::{Focus, SplitDims};
use logsplit_rs::{row_to_text, Cell, SelectionMode, SelectionPoint, Style, ViewerCore};

const NONE: KeyModifiers = KeyModifiers { shift: false, control: false, alt: false, other: false };

fn key(code: KeyCode) -> Key {
    Key { code, modifiers: NONE }
}

fn ch(ch: char) -> Key {
    key(KeyCode::Char(ch))
}

fn shift(ch: char) -> Key {
    Key { code: KeyCode::Char(ch), modifiers: KeyModifiers { shift: true, ..NONE } }
}

fn ctrl(ch: char) -> Key {
    Key { code: KeyCode::Char(ch), modifiers: KeyModifiers { control: true, ..NONE } }
}

fn recording(text: &str) -> Recording {
    Recording { bytes: text.as_bytes().to_vec(), events: Vec::new(), signature: None }
}

fn numbered(count: usize) -> String {
    (0..count).map(|n| format!("line {n}")).collect::<Vec<_>>().join("\r\n")
}

/// A view of ten lines in which four rows are shown beside the program.
fn view() -> (SplitView, SplitDims) {
    let dims = split_dims(21, 5);
    let left = ViewerCore::new(
        "/logs/some.log".to_string(),
        dims.rows,
        dims.right_cols,
        true,
        recording(&numbered(10)),
    );
    let right = Pane::new(dims.rows, dims.right_cols);
    (SplitView::new(left, right, &dims), dims)
}

/// The same with the focus on the log.
fn log_view() -> (SplitView, SplitDims) {
    let (mut view, dims) = view();
    press(&mut view, &dims, &[ctrl('w'), ch('h')]);
    (view, dims)
}

fn press(view: &mut SplitView, dims: &SplitDims, keys: &[Key]) {
    for pressed in keys {
        assert!(
            matches!(view.handle_key(*pressed, dims), Action::Continue),
            "{pressed:?}"
        );
    }
}

fn point(row: usize, col: usize) -> SelectionPoint {
    SelectionPoint { row, col }
}

#[test]
fn display_is_divided() {
    let dims = split_dims(80, 24);
    assert_eq!(
        dims,
        SplitDims { rows: 24, left_cols: 40, right_cols: 39, separator_col: 40 }
    );
    assert_eq!(
        split_dims(0, 0),
        SplitDims { rows: 1, left_cols: 1, right_cols: 1, separator_col: 1 }
    );
    assert_eq!(split_dims(81, 1).right_cols, 40);
}

#[test]
fn program_is_shown_as_it_writes() {
    let mut pane = Pane::new(2, 6);
    assert!(pane.handle_msg(PaneMsg::Data(b"ab\xe4\xb8".to_vec())));
    assert_eq!(pane.term().rendered_lines()[0], "ab");
    assert!(pane.handle_msg(PaneMsg::Data(b"\x96".to_vec())));
    assert_eq!(pane.term().rendered_lines()[0], "ab\u{4e16}");
    pane.resize(3, 4);
    assert_eq!((pane.term().rows(), pane.term().cols()), (3, 4));
    assert!(!pane.exited(false));
    assert!(pane.exited(true));
    assert!(!pane.alive() && pane.exited(false));
    let mut other = Pane::new(2, 6);
    assert!(other.handle_msg(PaneMsg::Data(b"a\xe4".to_vec())));
    assert!(other.handle_msg(PaneMsg::Eof));
    assert_eq!(other.term().rendered_lines()[0], "a\u{fffd}");
    assert!(!other.alive());
}

#[test]
fn view_starts_at_the_end_of_the_log() {
    let (view, _) = view();
    assert_eq!(view.focus(), Focus::Right);
    assert_eq!(view.left().top, 6);
    assert_eq!(view.left_cursor(), point(9, 0));
    assert!(view.selection().is_none());
}

#[test]
fn keys_go_to_the_program() {
    let (mut view, dims) = view();
    assert!(matches!(view.handle_key(ch('q'), &dims), Action::Send(bytes) if bytes == b"q"));
    assert!(matches!(view.handle_key(ctrl('c'), &dims), Action::Send(bytes) if bytes == [3]));
    assert!(matches!(view.handle_key(key(KeyCode::Other), &dims), Action::Continue));
    view.handle_msg(PaneMsg::Eof);
    assert!(matches!(view.handle_key(ch('q'), &dims), Action::Continue));
}

#[test]
fn prefixes_switch_panes_and_quit() {
    let (mut view, dims) = view();
    press(&mut view, &dims, &[ctrl('w')]);
    assert!(view.switch_prefix_pending());
    press(&mut view, &dims, &[ch('h')]);
    assert_eq!(view.focus(), Focus::Left);
    press(&mut view, &dims, &[ctrl('w'), ch('x')]);
    assert_eq!(view.focus(), Focus::Left);
    assert_eq!(view.left().status, "Ctrl-w h/l switches panes");
    press(&mut view, &dims, &[ctrl('w'), key(KeyCode::Esc), ctrl('w'), ch('l')]);
    assert_eq!(view.focus(), Focus::Right);
    press(&mut view, &dims, &[ctrl('g'), ch('x'), ctrl('g')]);
    assert!(view.prefix_pending());
    assert!(matches!(view.handle_key(ch('q'), &dims), Action::Quit));
}

#[test]
fn quitting_in_the_log_pane_is_explained() {
    let (mut view, dims) = log_view();
    press(&mut view, &dims, &[ch('q')]);
    assert_eq!(view.left().status, "Use Ctrl-g q to quit logsplit");
}

#[test]
fn cursor_moves_through_the_log() {
    let (mut view, dims) = log_view();
    press(&mut view, &dims, &[ch('k')]);
    assert_eq!(view.left_cursor(), point(8, 0));
    assert!(!view.left().follow);
    press(&mut view, &dims, &[ch('l'), ch('l'), key(KeyCode::Left)]);
    assert_eq!(view.left_cursor(), point(8, 1));
    press(&mut view, &dims, &[shift('$')]);
    assert_eq!(view.left_cursor(), point(8, 5));
    press(&mut view, &dims, &[ch('0'), ch('w')]);
    assert_eq!(view.left_cursor(), point(8, 5));
    press(&mut view, &dims, &[ch('b'), ch('e')]);
    assert_eq!(view.left_cursor(), point(8, 3));
    press(&mut view, &dims, &[ch('l'), ch('e')]);
    assert_eq!(view.left_cursor(), point(8, 5));
    press(&mut view, &dims, &[ch('h'), ch('b')]);
    assert_eq!(view.left_cursor(), point(8, 0));
    press(&mut view, &dims, &[ch('g')]);
    assert_eq!((view.left_cursor(), view.left().top), (point(0, 0), 0));
    press(&mut view, &dims, &[ch(' ')]);
    assert_eq!((view.left_cursor().row, view.left().top), (4, 1));
    press(&mut view, &dims, &[ch('u')]);
    assert_eq!((view.left_cursor().row, view.left().top), (2, 1));
    press(&mut view, &dims, &[ctrl('b')]);
    assert_eq!((view.left_cursor().row, view.left().top), (0, 0));
    press(&mut view, &dims, &[shift('G')]);
    assert_eq!((view.left_cursor(), view.left().top), (point(9, 5), 6));
    press(&mut view, &dims, &[shift('H')]);
    assert_eq!(view.left_cursor(), point(6, 0));
    press(&mut view, &dims, &[shift('M')]);
    assert_eq!(view.left_cursor(), point(7, 0));
    press(&mut view, &dims, &[shift('L')]);
    assert_eq!(view.left_cursor(), point(9, 0));
}

#[test]
fn view_scrolls_under_the_cursor() {
    let (mut view, dims) = log_view();
    press(&mut view, &dims, &[ctrl('y')]);
    assert_eq!((view.left_cursor().row, view.left().top), (8, 5));
    press(&mut view, &dims, &[ctrl('y')]);
    assert_eq!((view.left_cursor().row, view.left().top), (7, 4));
    press(&mut view, &dims, &[ctrl('e')]);
    assert_eq!((view.left_cursor().row, view.left().top), (7, 5));
}

#[test]
fn following_is_switched() {
    let (mut view, dims) = log_view();
    press(&mut view, &dims, &[ch('g'), shift('F')]);
    assert!(view.left().follow);
    assert_eq!((view.left_cursor().row, view.left().top), (9, 6));
    assert_eq!(view.left().status, "Follow mode");
    assert!(view.sync_left_from_log(LogUpdate::Appended(b"\r\nmore".to_vec()), &dims));
    assert_eq!((view.left_cursor().row, view.left().top), (10, 7));
    press(&mut view, &dims, &[ctrl('c')]);
    assert_eq!(view.left().status, "Follow stopped");
    assert!(view.sync_left_from_log(LogUpdate::Appended(b"\r\nmore".to_vec()), &dims));
    assert_eq!((view.left_cursor().row, view.left().top), (10, 7));
    assert!(!view.sync_left_from_log(LogUpdate::Unchanged, &dims));
}

#[test]
fn searching_puts_the_line_at_the_top() {
    let (mut view, dims) = log_view();
    press(&mut view, &dims, &[ch('g')]);
    assert!(matches!(view.handle_key(ch('/'), &dims), Action::Prompt));
    view.finish_search("LINE 4".to_string(), &dims);
    assert_eq!((view.left_cursor(), view.left().top), (point(4, 0), 4));
    assert_eq!(view.left().status, "/LINE 4");
    view.finish_search("nothing".to_string(), &dims);
    assert_eq!(view.left().status, "Pattern not found: nothing");
    view.finish_search(String::new(), &dims);
    assert_eq!(view.left().status, "");
    view.finish_search("line".to_string(), &dims);
    press(&mut view, &dims, &[shift('N')]);
    assert_eq!(view.left().top, 4);
    press(&mut view, &dims, &[shift('N')]);
    assert_eq!(view.left().top, 3);
    press(&mut view, &dims, &[ch('n')]);
    assert_eq!((view.left_cursor(), view.left().top), (point(4, 0), 4));
}

#[test]
fn selection_in_the_log_is_copied() {
    let (mut view, dims) = log_view();
    press(&mut view, &dims, &[ch('g'), ch('v')]);
    assert_eq!(view.selection().unwrap().pane, Focus::Left);
    press(&mut view, &dims, &[ch('j'), shift('$')]);
    assert!(matches!(
        view.handle_key(ch('y'), &dims),
        Action::Copy(text) if text == "line 0\nline 1"
    ));
    view.report_copy(Some("no clipboard"));
    assert_eq!(view.left().status, "Clipboard copy failed: no clipboard");
    assert!(view.selection().is_some());
    view.report_copy(None);
    assert_eq!(view.left().status, "Copied 2 displayed lines from left pane");
    assert!(view.selection().is_none());
}

#[test]
fn selection_in_the_program_is_copied() {
    let (mut view, dims) = view();
    view.handle_msg(PaneMsg::Data(b"$ run\r\ndone\r\n".to_vec()));
    press(&mut view, &dims, &[ctrl('g'), shift('V')]);
    let active = view.selection().unwrap();
    assert_eq!(active.pane, Focus::Right);
    assert_eq!(active.selection.mode, SelectionMode::Line);
    assert_eq!(active.selection.cursor, point(1, 0));
    assert!(matches!(view.handle_key(shift('Y'), &dims), Action::Copy(text) if text == "done"));
    view.report_copy(None);
    assert_eq!(view.left().status, "Copied 1 displayed line from right pane");
}

#[test]
fn selections_are_given_up() {
    let (mut view, dims) = log_view();
    press(&mut view, &dims, &[ch('v'), key(KeyCode::Esc)]);
    assert!(view.selection().is_none());
    assert_eq!(view.left().status, "Selection cleared");
    press(&mut view, &dims, &[ch('v'), ctrl('w'), ch('l')]);
    assert!(view.selection().is_none());
}

#[test]
fn selection_moves_like_the_cursor() {
    let (mut view, dims) = log_view();
    press(&mut view, &dims, &[ch('g'), shift('V'), ch(' '), ch('k'), ch('w')]);
    let active = view.selection().unwrap();
    assert_eq!(active.selection.anchor, point(0, 0));
    assert_eq!(active.selection.cursor, point(3, 5));
    assert_eq!(view.left_cursor(), point(3, 5));
    press(&mut view, &dims, &[shift('G')]);
    assert_eq!(view.selection().unwrap().selection.cursor, point(9, 5));
    assert_eq!(view.left().top, 6);
}

#[test]
fn pasting_goes_to_the_program() {
    let (mut view, dims) = view();
    assert!(matches!(view.handle_key(ctrl('g'), &dims), Action::Continue));
    assert!(matches!(view.handle_key(ch('p'), &dims), Action::Paste));
    assert_eq!(view.paste(Ok("a\u{e9}".to_string())), Some(vec![b'a', 0xc3, 0xa9]));
    view.report_paste(3, None);
    assert_eq!(view.left().status, "Pasted 3 bytes into right pane");
    view.report_paste(1, None);
    assert_eq!(view.left().status, "Pasted 1 byte into right pane");
    view.report_paste(1, Some("closed"));
    assert_eq!(view.left().status, "Paste failed: closed");
    assert_eq!(view.paste(Ok(String::new())), None);
    assert_eq!(view.left().status, "Clipboard is empty");
    assert_eq!(view.paste(Err("gone".to_string())), None);
    assert_eq!(view.left().status, "Clipboard paste failed: gone");
    view.handle_msg(PaneMsg::Eof);
    assert_eq!(view.paste(Ok("a".to_string())), None);
    assert_eq!(view.left().status, "Right pane is not running");
}

#[test]
fn log_is_read_again() {
    let (mut view, dims) = log_view();
    assert!(matches!(view.handle_key(ch('r'), &dims), Action::Reload));
    view.reload(recording("only\r\ntwo"), &dims);
    assert_eq!(view.left().status, "Reloaded");
    assert_eq!(view.left().lines()[..2], ["only".to_string(), "two".to_string()]);
    assert!(view.previous_frame().is_none());
}

#[test]
fn new_size_lays_everything_out_again() {
    let (mut view, _) = view();
    let wide = split_dims(41, 8);
    view.handle_resize(recording(&numbered(10)), &wide);
    assert_eq!((view.right().term().rows(), view.right().term().cols()), (8, 20));
    assert_eq!(view.left().term().cols(), 20);
    assert_eq!(view.left().top, 3);
}

#[test]
fn frame_shows_log_separator_and_program() {
    let (mut view, dims) = view();
    view.handle_msg(PaneMsg::Data(b"$ run".to_vec()));
    let drawn = view.draw(&dims);
    assert!(!drawn.is_empty());
    let frame = view.previous_frame().as_ref().unwrap();
    assert_eq!((frame.width, frame.height, frame.separator_col), (21, 5, 10));
    assert_eq!(row_to_text(&frame.rows[0]), "line 6    >$ run");
    assert_eq!(row_to_text(&frame.rows[3]), "line 9    |");
    assert_eq!(frame.rows[3][0].style.bg, Some(240));
    assert!(frame.rows[4][0].style.reverse);
    assert_eq!(frame.rows[0][10].style.fg, Some(14));
    assert!(view.draw(&dims).is_empty());
    view.handle_msg(PaneMsg::Data(b"!".to_vec()));
    let changed = view.draw(&dims);
    assert!(changed.iter().any(|op| matches!(op, DrawOp::MoveTo { x: 11, y: 0 })));
    assert!(!changed.iter().any(|op| matches!(op, DrawOp::MoveTo { y: 1, .. })));
}

#[test]
fn separator_tells_the_state() {
    let (mut view, dims) = view();
    let first = |view: &mut SplitView| {
        view.draw(&dims);
        view.previous_frame().as_ref().unwrap().rows[0][10].ch
    };
    assert_eq!(first(&mut view), '>');
    press(&mut view, &dims, &[ctrl('w')]);
    assert_eq!(first(&mut view), 'w');
    press(&mut view, &dims, &[ch('h'), ctrl('g')]);
    assert_eq!(first(&mut view), '*');
    press(&mut view, &dims, &[ch('x')]);
    assert_eq!(first(&mut view), '<');
}

#[test]
fn selection_is_announced() {
    assert_eq!(selection_label(SelectionMode::Character), "VISUAL");
    assert_eq!(selection_label(SelectionMode::Line), "V-LINE");
    let (mut view, dims) = log_view();
    press(&mut view, &dims, &[shift('V')]);
    view.draw(&dims);
    let status: String = view.previous_frame().as_ref().unwrap().rows[4][..10]
        .iter()
        .map(|cell| cell.ch)
        .collect();
    assert_eq!(status, "V-LINE lef");
    press(&mut view, &dims, &[key(KeyCode::Esc), shift('?')]);
    assert!(view.left().status.starts_with("h/j/k/l move cursor"));
}

#[test]
fn status_cells_fill_the_width() {
    let cells = reverse_status_cells("abc", 5);
    assert_eq!(cells.len(), 5);
    assert!(cells.iter().all(|cell| cell.style.reverse && !cell.wide_cont));
    assert_eq!(row_to_text(&cells), "abc");
    assert_eq!(reverse_status_cells("abcdef", 2).len(), 2);
}

#[test]
fn cursor_is_shown_on_its_cell() {
    let mut empty: Vec<Cell> = Vec::new();
    apply_cursor_highlight(&mut empty, 5, true);
    assert_eq!(empty.len(), 1);
    assert_eq!(
        empty[0].style,
        Style { bg: Some(245), bold: true, ..Style::default() }
    );
    let mut wide = vec![
        Cell { ch: '\u{4e16}', style: Style::default(), wide_cont: false },
        Cell { ch: ' ', style: Style::default(), wide_cont: true },
        Cell { ch: 'a', style: Style::default(), wide_cont: false },
    ];
    apply_cursor_highlight(&mut wide, 1, false);
    assert_eq!(wide[0].style.bg, Some(240));
    assert_eq!(wide[1].style.bg, Some(240));
    assert_eq!(wide[2].style, Style::default());
}

#[test]
fn prompt_is_drawn_over_the_status() {
    let mut line = Prompt::new();
    line.handle_key(ch('a'));
    let drawn = draw_prompt("/", &line, &split_dims(21, 5));
    assert!(drawn.iter().any(|op| matches!(op, DrawOp::MoveTo { x: 0, y: 4 })));
    assert!(drawn
        .iter()
        .any(|op| matches!(op, DrawOp::Print(text) if text == "/a        ")));
}
