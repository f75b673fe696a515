use logsplit_rs::keys::{Key, KeyCode, KeyModifiers, Prompt};
use logsplit_rs::pager::{
    draw_page_prompt, dump_render, viewport_dims_for, PageAction, PageView, ViewportDims,
};
use logsplit_rs::render::DrawOp;
use logsplit_rs::replay::{LogUpdate, Recording};
use logsplit_rs::{SelectionMode, ViewerCore};

const NONE: KeyModifiers = KeyModifiers { shift: false, control: false, alt: false, other: false };

fn key(code: KeyCode) -> Key {
    Key { code, modifiers: NONE }
}

fn ch(ch: char) -> Key {
    key(KeyCode::Char(ch))
}

fn shift(ch: char) -> Key {
    Key { code: KeyCode::Char(ch), modifiers: KeyModifiers { shift: true, ..NONE } }
}

fn ctrl(ch: char) -> Key {
    Key { code: KeyCode::Char(ch), modifiers: KeyModifiers { control: true, ..NONE } }
}

fn recording(text: &str) -> Recording {
    Recording { bytes: text.as_bytes().to_vec(), events: Vec::new(), signature: None }
}

fn numbered(count: usize) -> String {
    (0..count).map(|n| format!("line {n}")).collect::<Vec<_>>().join("\r\n")
}

/// A view of ten lines on a display of five rows.
fn view() -> (PageView, ViewportDims) {
    let dims = viewport_dims_for(31, 5, Some(3), Some(20));
    let viewer = ViewerCore::new(
        "/logs/some.log".to_string(),
        dims.source_rows,
        dims.source_cols,
        false,
        recording(&numbered(10)),
    );
    (PageView::new(viewer, &dims), dims)
}

fn press(view: &mut PageView, dims: &ViewportDims, keys: &[Key]) {
    for pressed in keys {
        assert!(
            matches!(view.handle_key(*pressed, dims), PageAction::Continue),
            "{pressed:?}"
        );
    }
}

#[test]
fn viewport_is_measured() {
    let dims = viewport_dims_for(80, 24, None, None);
    assert_eq!((dims.source_rows, dims.source_cols, dims.content_width), (40, 120, 79));
    let large = viewport_dims_for(200, 61, None, None);
    assert_eq!((large.source_rows, large.source_cols), (60, 200));
    let given = viewport_dims_for(1, 1, Some(0), Some(7));
    assert_eq!((given.source_rows, given.source_cols, given.content_width), (1, 7, 1));
}

#[test]
fn pages_are_turned() {
    let (mut view, dims) = view();
    press(&mut view, &dims, &[ch('g')]);
    assert_eq!(view.viewer().top, 0);
    press(&mut view, &dims, &[ch('j'), key(KeyCode::Enter)]);
    assert_eq!(view.viewer().top, 2);
    press(&mut view, &dims, &[ch(' ')]);
    assert_eq!(view.viewer().top, 6);
    press(&mut view, &dims, &[ch('u')]);
    assert_eq!(view.viewer().top, 4);
    press(&mut view, &dims, &[ch('b'), ctrl('y')]);
    assert_eq!(view.viewer().top, 0);
    press(&mut view, &dims, &[shift('G')]);
    assert_eq!(view.viewer().top, 6);
    press(&mut view, &dims, &[ch('g'), shift('F')]);
    assert_eq!((view.viewer().top, view.viewer().follow), (6, true));
    press(&mut view, &dims, &[ctrl('c')]);
    assert!(!view.viewer().follow);
    assert!(matches!(view.handle_key(ch('q'), &dims), PageAction::Quit));
}

#[test]
fn page_search_puts_the_line_at_the_top() {
    let (mut view, dims) = view();
    press(&mut view, &dims, &[ch('g')]);
    assert!(matches!(view.handle_key(ch('/'), &dims), PageAction::Prompt));
    view.finish_search("line 3".to_string(), &dims);
    assert_eq!((view.viewer().top, view.viewer().status.as_str()), (3, "/line 3"));
    view.finish_search("line".to_string(), &dims);
    press(&mut view, &dims, &[ch('n')]);
    assert_eq!(view.viewer().top, 5);
    press(&mut view, &dims, &[shift('N')]);
    assert_eq!(view.viewer().top, 4);
    press(&mut view, &dims, &[shift('N'), shift('N')]);
    assert_eq!((view.viewer().top, view.viewer().status.as_str()), (2, "/line"));
    press(&mut view, &dims, &[ch('n'), ch('n'), ch('n')]);
    assert_eq!(view.viewer().top, 5);
    view.finish_search("nothing".to_string(), &dims);
    assert_eq!(view.viewer().status, "Pattern not found: nothing");
}

#[test]
fn page_selection_is_copied() {
    let (mut view, dims) = view();
    press(&mut view, &dims, &[ch('g'), shift('V')]);
    assert_eq!(view.selection().unwrap().mode, SelectionMode::Line);
    press(&mut view, &dims, &[ch('k'), ch('k'), ch('k'), ch('k')]);
    let PageAction::Copy(text) = view.handle_key(ch('y'), &dims) else {
        panic!("nothing was copied");
    };
    assert!(text.starts_with("line 0"));
    view.report_copy(Some("gone"));
    assert_eq!(view.viewer().status, "Clipboard copy failed: gone");
    view.report_copy(None);
    assert!(view.viewer().status.starts_with("Copied "));
    assert!(view.selection().is_none());
    press(&mut view, &dims, &[ch('v'), key(KeyCode::Esc)]);
    assert!(view.selection().is_none());
}

#[test]
fn page_follows_the_log() {
    let (mut view, dims) = view();
    assert!(!view.poll_viewer_change(LogUpdate::Unchanged, &dims));
    press(&mut view, &dims, &[shift('F')]);
    assert!(view.poll_viewer_change(LogUpdate::Appended(b"\r\nmore".to_vec()), &dims));
    assert_eq!(view.viewer().top, 7);
    assert!(matches!(view.handle_key(ch('r'), &dims), PageAction::Reload));
    view.reload(recording(&numbered(3)), &dims);
    assert_eq!(view.viewer().status, "Reloaded");
    assert_eq!(view.viewer().lines(), vec!["line 0", "line 1", "line 2"]);
    let wide = viewport_dims_for(31, 3, Some(2), Some(4));
    view.reload_for_viewport(recording("abcdef"), &wide);
    assert_eq!(view.viewer().lines(), vec!["abcd", "ef"]);
}

#[test]
fn page_is_drawn_once() {
    let (mut view, dims) = view();
    let drawn = view.draw(&dims);
    assert!(drawn
        .iter()
        .any(|op| matches!(op, DrawOp::Print(text) if text.contains("line 9") || text.contains("line 0"))));
    assert!(view.draw(&dims).is_empty());
    let page = view.previous_page().as_ref().unwrap();
    assert_eq!((page.width, page.height, page.rows.len()), (31, 5, 4));
    assert!(page.status.contains("some.log"));
}

#[test]
fn page_prompt_is_drawn_at_the_bottom() {
    let mut line = Prompt::new();
    line.handle_key(ch('a'));
    let drawn = draw_page_prompt("/", &line, &viewport_dims_for(6, 5, None, None));
    assert!(drawn.iter().any(|op| matches!(op, DrawOp::MoveTo { x: 0, y: 4 })));
    assert!(drawn
        .iter()
        .any(|op| matches!(op, DrawOp::Print(text) if text.starts_with("/a"))));
}

#[test]
fn log_is_dumped_as_text() {
    let lines = dump_render(recording("one\r\n\x1b[1mtwo\x1b[0m\r\nthree"), 5, 10, None);
    assert_eq!(lines[..3], ["one".to_string(), "two".to_string(), "three".to_string()]);
    let tail = dump_render(recording("one\r\ntwo\r\nthree"), 3, 10, Some(2));
    assert_eq!(tail, vec!["two", "three"]);
    assert_eq!(dump_render(recording("one"), 1, 10, Some(9)), vec!["one"]);
}
