use logsplit_rs::replay::{LogUpdate, Recording};
use logsplit_rs::{row_to_text, ResizeEvent, ViewerCore};

fn recording(text: &str) -> Recording {
    Recording { bytes: text.as_bytes().to_vec(), events: Vec::new(), signature: None }
}

fn numbered(count: usize) -> String {
    (0..count).map(|n| format!("line {n}")).collect::<Vec<_>>().join("\r\n")
}

fn viewer(text: &str, follow: bool) -> ViewerCore {
    ViewerCore::new("/logs/some.log".to_string(), 3, 20, follow, recording(text))
}

fn visible(viewer: &mut ViewerCore, rows: usize, width: usize) -> Vec<String> {
    viewer.visible_rows(rows, width).iter().map(|row| row_to_text(row)).collect()
}

#[test]
fn viewer_shows_a_window_of_the_log() {
    let mut core = viewer(&numbered(10), false);
    assert_eq!(core.path(), "/logs/some.log");
    assert_eq!(core.term().rows(), 3);
    assert_eq!(core.lines().len(), 10);
    assert_eq!(core.top, 0);
    assert_eq!(core.max_top(5, 20), 6);
    assert_eq!(visible(&mut core, 5, 20), vec!["line 0", "line 1", "line 2", "line 3"]);
    core.jump_to_end(5, 20);
    assert_eq!(visible(&mut core, 5, 20), vec!["line 6", "line 7", "line 8", "line 9"]);
    core.top = 99;
    assert_eq!(visible(&mut core, 5, 20)[0], "line 6");
    assert_eq!(core.top, 6);
}

#[test]
fn content_height_leaves_room_for_the_status() {
    assert_eq!(ViewerCore::content_height(0), 1);
    assert_eq!(ViewerCore::content_height(1), 1);
    assert_eq!(ViewerCore::content_height(2), 1);
    assert_eq!(ViewerCore::content_height(24), 23);
}

#[test]
fn long_lines_are_laid_out_over_several_rows() {
    let mut core = viewer("abcdefgh\r\nxy", false);
    assert_eq!(core.display_len(3), 5);
    assert_eq!(visible(&mut core, 9, 3), vec!["abc", "def", "gh", "xy", "", "", "", ""]);
    assert_eq!(row_to_text(&core.display_row(1, 3).unwrap()), "def");
    assert_eq!(core.display_row(5, 3), None);
    core.ensure_layout(20);
    assert_eq!(core.display_len(20), 3);
    assert_eq!(row_to_text(&core.layout_row(0).unwrap()), "abcdefgh");
}

#[test]
fn scrolling_stays_inside_the_log() {
    let mut core = viewer(&numbered(10), true);
    core.scroll(1, 5, 20);
    assert_eq!(core.top, 1);
    assert!(!core.follow);
    core.page(1, 5, 20);
    assert_eq!(core.top, 5);
    core.half_page(-1, 5, 20);
    assert_eq!(core.top, 3);
    core.page(-1, 5, 20);
    assert_eq!(core.top, 0);
    core.page(isize::MAX, 5, 20);
    assert_eq!(core.top, 6);
    core.scroll(isize::MIN, 5, 20);
    assert_eq!(core.top, 0);
    core.half_page(1, 1, 20);
    assert_eq!(core.top, 1);
}

#[test]
fn searches_go_to_the_nearest_line() {
    let mut core = viewer("alpha\r\nBETA one\r\ngamma\r\nbeta two\r\ndelta\r\nepsilon", false);
    assert!(core.search("Beta", true, 3, 20));
    assert_eq!(core.top, 1);
    assert!(core.search("beta", true, 3, 20));
    assert_eq!(core.top, 3);
    assert!(core.search("beta", false, 3, 20));
    assert_eq!(core.top, 1);
    assert!(!core.search("zeta", true, 3, 20));
    assert_eq!(core.top, 1);
}

#[test]
fn searches_ignore_case_beyond_ascii() {
    let mut core = viewer("one\r\n\u{c4}PFEL\r\ntwo\r\nthree\r\nfour", false);
    assert!(core.search("\u{e4}pfel", true, 2, 20));
    assert_eq!(core.top, 1);
    assert!(!core.search("apfel", true, 2, 20));
}

#[test]
fn searches_are_repeated_both_ways() {
    let mut core = viewer(&numbered(9), true);
    assert!(!core.repeat_search(true, 3, 20));
    assert_eq!(core.status, "No previous search");
    core.search_term = Some("line".to_string());
    assert!(core.repeat_search(true, 3, 20));
    assert_eq!((core.top, core.status.as_str()), (1, "/line"));
    assert!(core.repeat_search(true, 3, 20));
    assert_eq!(core.top, 2);
    assert!(core.repeat_search(false, 3, 20));
    assert_eq!(core.top, 1);
    assert!(!core.last_search_forward);
    core.search_term = Some("nothing".to_string());
    assert!(!core.repeat_search(true, 3, 20));
    assert_eq!(core.status, "Pattern not found: nothing");
}

#[test]
fn following_shows_what_is_added() {
    let mut core = viewer(&numbered(5), true);
    core.jump_to_end(3, 20);
    assert_eq!(core.top, 3);
    assert!(!core.poll(3, 20, LogUpdate::Unchanged));
    assert!(core.poll(3, 20, LogUpdate::Appended(b"\r\nmore\r\nlast".to_vec())));
    assert_eq!(visible(&mut core, 3, 20), vec!["more", "last"]);
    core.follow = false;
    assert!(core.poll(3, 20, LogUpdate::Appended(b"\r\nunseen".to_vec())));
    assert_eq!(visible(&mut core, 3, 20), vec!["more", "last"]);
}

#[test]
fn continued_layout_is_a_new_layout() {
    let mut core = viewer(&numbered(5), false);
    core.ensure_layout(4);
    core.poll(5, 4, LogUpdate::Appended(b"\r\nabcdefghi\r\n".to_vec()));
    let continued = visible(&mut core, 99, 4);
    core.drop_layout_cache();
    assert_eq!(visible(&mut core, 99, 4), continued);
    core.invalidate_layout();
    assert_eq!(visible(&mut core, 99, 4), continued);
}

#[test]
fn resizing_replays_the_log() {
    let mut core = viewer("abcdef", true);
    core.resize_source(2, 3, 5, 20, recording("abcdef\r\nx"));
    assert_eq!(core.lines(), vec!["abc", "def", "x"]);
    core.follow = false;
    core.top = 50;
    core.resize_source(2, 9, 2, 20, recording("abcdef"));
    assert_eq!(core.top, 1);
}

#[test]
fn status_tells_name_and_place() {
    let mut core = viewer(&numbered(10), true);
    core.jump_to_end(5, 20);
    let text = core.status_text(5, 20, 60);
    assert_eq!(text.chars().count(), 60);
    assert!(text.contains("some.log"), "{text}");
    assert!(text.contains("100%"), "{text}");
    core.status = "Reloaded".to_string();
    assert!(core.status_text(5, 20, 60).contains("Reloaded"));
    let other = core.status_text_with_override(5, 20, 60, Some("VISUAL"));
    assert!(other.contains("VISUAL") && !other.contains("Reloaded"), "{other}");
    assert_eq!(core.status_text(5, 20, 4).chars().count(), 4);
}

#[test]
fn replaced_log_is_shown_anew() {
    let mut core = viewer(&numbered(10), false);
    core.ensure_layout(20);
    let other = (0..12).map(|n| format!("other {n}")).collect::<Vec<_>>().join("\r\n");
    assert!(core.poll(5, 20, LogUpdate::Replaced(recording(&other))));
    assert_eq!(visible(&mut core, 5, 20), vec!["other 0", "other 1", "other 2", "other 3"]);
    assert_eq!(core.display_len(20), 12);
    assert_eq!(core.replay().path(), "/logs/some.log");
    assert_eq!(core.replay().resize_path(), "/logs/some.log.resize");
}

#[test]
fn size_change_in_what_is_added_is_laid_out_anew() {
    let text = numbered(6);
    let change = ResizeEvent { offset: text.len() as u64 + 1, rows: 3, cols: 4 };
    let mut core = ViewerCore::new(
        "log".to_string(),
        3,
        20,
        false,
        Recording { bytes: text.into_bytes(), events: vec![change], signature: None },
    );
    core.ensure_layout(20);
    assert!(core.poll(5, 20, LogUpdate::Appended(b"\r\nabcdef".to_vec())));
    let shown = visible(&mut core, 99, 20);
    assert_eq!(shown[0], "line");
    core.drop_layout_cache();
    assert_eq!(visible(&mut core, 99, 20), shown);
}

#[test]
fn repeated_search_goes_back_again_and_again() {
    let mut core = viewer(&numbered(9), false);
    core.search_term = Some("line".to_string());
    core.top = 6;
    for line in [5, 4, 3] {
        assert!(core.repeat_search(false, 3, 20));
        assert_eq!((core.top, core.status.as_str()), (line, "/line"));
    }
    core.search_term = Some("line 8".to_string());
    assert!(!core.repeat_search(false, 3, 20));
    assert_eq!(core.top, 3);
    assert!(core.repeat_search(true, 3, 20));
    assert_eq!(core.top, 7);
}
