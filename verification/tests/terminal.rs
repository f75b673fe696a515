use logsplit_rs::terminal::rgb_to_xterm256;
use logsplit_rs::{clamp, clamp_signed, row_to_text, Style, VirtualTerminal};

fn fed(rows: usize, cols: usize, text: &str) -> VirtualTerminal {
    let mut term = VirtualTerminal::new(rows, cols);
    term.feed(text);
    term
}

fn style_of(text: &str) -> Style {
    let term = fed(1, 4, &format!("{text}x"));
    term.screen_rows()[0][0].style
}

#[test]
fn resize_preserves_existing_row_content() {
    let mut term = VirtualTerminal::new(1, 3);
    term.feed("abc");
    term.resize(1, 6);
    term.feed("def");

    assert_eq!(term.rendered_lines(), vec!["abcdef"]);
}

#[test]
fn cursor_motion_after_last_column_cancels_wrap_pending() {
    let mut term = VirtualTerminal::new(2, 5);
    term.feed("abcde\x1b[AZ");

    assert_eq!(term.rendered_lines(), vec!["abcdZ", ""]);
}

#[test]
fn sgr_after_last_column_keeps_wrap_pending() {
    let mut term = VirtualTerminal::new(2, 5);
    term.feed("abcde\x1b[31mZ");

    assert_eq!(term.rendered_lines(), vec!["abcde", "Z"]);
}

#[test]
fn synchronized_right_status_scroll_does_not_shift_main_content() {
    let mut term = VirtualTerminal::new(6, 20);
    term.feed("\x1b[1;1Htop");
    term.feed("\x1b[4;1Hseparator");
    term.feed("\x1b[5;1Haccept");
    term.feed("\x1b[3;3H");
    term.feed(
        "\x1b[?2026h\x1b[3B\r\x1b[10C\x1b[1Acheck\r\r\n\
         \x1b[10Cnew\r\r\n\x1b[2C\x1b[4A\x1b[?2026l",
    );

    let lines = term.rendered_lines();
    assert_eq!(lines[0], "top");
    assert_eq!(lines[3], "accept    check");
    assert_eq!(lines[4], "          new");
}

#[test]
fn new_terminal_has_at_least_one_cell() {
    let term = VirtualTerminal::new(0, 0);
    assert_eq!((term.rows(), term.cols()), (1, 1));
    assert_eq!(term.history_len(), 0);
    assert_eq!(term.screen_rows().len(), 1);
    assert_eq!(term.screen_rows()[0].len(), 1);
    assert_eq!(term.rendered_lines(), vec![""]);
}

#[test]
fn rows_that_leave_the_screen_go_into_the_history() {
    let term = fed(2, 5, "one\r\ntwo  \r\nthree");
    assert_eq!(term.history_len(), 1);
    assert_eq!(term.history_rows()[0].len(), 3);
    assert_eq!(term.rendered_lines(), vec!["one", "two", "three"]);
    assert_eq!(term.trimmed_screen_rows()[0].len(), 3);
    assert_eq!(term.screen_rows()[0].len(), 5);
    assert_eq!(term.rendered_rows().len(), 3);
}

#[test]
fn typed_lines_are_shown_in_order() {
    let lines = ["one", "", "two  ", "three", " 4"];
    for rows in 1..8 {
        let term = fed(rows, 5, &lines.join("\r\n"));
        let mut shown: Vec<String> = lines.iter().map(|line| line.trim_end().to_string()).collect();
        while shown.len() < rows {
            shown.push(String::new());
        }
        assert_eq!(term.rendered_lines(), shown);
        assert_eq!(term.history_len(), lines.len().saturating_sub(rows));
    }
    let long = fed(4, 5, "one two three\r\n12345\r\n");
    assert_eq!(long.rendered_lines(), vec!["one t", "wo th", "ree", "12345", ""]);
    assert_eq!(long.history_len(), 1);
    let wide = fed(3, 5, "ab\u{4e16}\u{4e16}c \r\n\u{4e16}");
    assert_eq!(wide.rendered_lines(), vec!["ab\u{4e16}", "\u{4e16}c", "\u{4e16}"]);
}

#[test]
fn new_rows_of_the_history_are_trimmed() {
    let mut term = fed(2, 6, "a  \r\n\x1b[41m b   \r\n\r\n");
    term.feed("\x1b[9Sx \u{4e16} \r\n\n\n");
    assert!(term.history_len() > 9);
    for row in term.history_rows() {
        if let Some(cell) = row.last() {
            assert!(cell.wide_cont || cell.ch != ' ');
        }
    }
}

#[test]
fn history_in_front_changes_nothing_else() {
    let text = "a\r\nb\x1b[1;31mc\u{4e16}\r\n\x1b[Sd\x1b[Le\x1b[?2026h\r\n\n\nf\x1bMg";
    let fresh = fed(3, 6, text);
    let mut later = fed(3, 6, "1\r\n2\r\n3\r\n4\r\n5");
    later.reset(true);
    let front = later.history_len();
    assert_eq!(front, 2);
    later.feed(text);
    assert_eq!(later.screen_rows(), fresh.screen_rows());
    assert_eq!(&later.history_rows()[front..], fresh.history_rows());
    assert_eq!(row_to_text(&later.history_rows()[0]), "1");
}

#[test]
fn text_in_parts_is_text_at_once() {
    let text = "a\x1b[1;31mb\u{4e16}c\r\nd\x1b]0;title\x07e\x1b[2Kf\x1b7g\x1b8h\ti";
    let whole = fed(3, 6, text);
    let mut parts = VirtualTerminal::new(3, 6);
    for ch in text.chars() {
        parts.feed(&ch.to_string());
    }
    assert_eq!(whole.rendered_rows(), parts.rendered_rows());
    assert_eq!(whole.history_len(), parts.history_len());
}

#[test]
fn wide_characters_take_up_two_columns() {
    let term = fed(2, 5, "ab\u{4e16}");
    let row = &term.screen_rows()[0];
    assert_eq!(row[2].ch, '\u{4e16}');
    assert!(!row[2].wide_cont);
    assert!(row[3].wide_cont);
    assert_eq!(term.rendered_lines(), vec!["ab\u{4e16}", ""]);
}

#[test]
fn wide_character_without_room_goes_to_the_next_line() {
    let term = fed(2, 3, "ab\u{4e16}c");
    assert_eq!(term.rendered_lines(), vec!["ab", "\u{4e16}c"]);
    // A character that is wider than the screen is dropped.
    let narrow = fed(2, 1, "\u{4e16}x");
    assert_eq!(narrow.rendered_lines(), vec!["x", ""]);
}

#[test]
fn cursor_functions_stop_at_the_edges() {
    assert_eq!(fed(3, 4, "\x1b[9;9Hx").rendered_lines(), vec!["", "", "   x"]);
    assert_eq!(fed(3, 4, "\x1b[2;2H\x1b[9A\x1b[9Dx").rendered_lines()[0], "x");
    assert_eq!(fed(3, 4, "\x1b[9B\x1b[9Cx").rendered_lines()[2], "   x");
    assert_eq!(fed(3, 4, "ab\x1b[Ex").rendered_lines(), vec!["ab", "x", ""]);
    assert_eq!(fed(3, 4, "\x1b[3Hab\x1b[2Fx").rendered_lines(), vec!["x", "", "ab"]);
    assert_eq!(fed(1, 9, "ab\x1b[5Gx").rendered_lines(), vec!["ab  x"]);
    assert_eq!(
        fed(1, 3, "\x1b[99999999999999999999999Cx").rendered_lines(),
        vec![" x"]
    );
    assert_eq!(fed(1, 4, "\x1b[18446744073709551615Cx").rendered_lines(), vec!["   x"]);
}

#[test]
fn tabs_go_to_multiples_of_eight() {
    assert_eq!(fed(1, 20, "a\tb").rendered_lines(), vec!["a       b"]);
    assert_eq!(fed(1, 5, "a\tb").rendered_lines(), vec!["a   b"]);
}

#[test]
fn erasing_in_line_and_display() {
    assert_eq!(fed(1, 6, "abcdef\x1b[3G\x1b[K").rendered_lines(), vec!["ab"]);
    assert_eq!(fed(1, 6, "abcdef\x1b[3G\x1b[1K").rendered_lines(), vec!["   def"]);
    assert_eq!(fed(1, 6, "abcdef\x1b[3G\x1b[2K").rendered_lines(), vec![""]);
    let text = "aaa\r\nbbb\r\nccc\x1b[2;2H";
    assert_eq!(fed(3, 3, &format!("{text}\x1b[J")).rendered_lines(), vec!["aaa", "b", ""]);
    assert_eq!(fed(3, 3, &format!("{text}\x1b[1J")).rendered_lines(), vec!["", "  b", "ccc"]);
    assert_eq!(fed(3, 3, &format!("{text}\x1b[2J")).rendered_lines(), vec!["", "", ""]);
}

#[test]
fn lines_and_characters_are_inserted_and_deleted() {
    let text = "aaa\r\nbbb\r\nccc\x1b[2;2H";
    assert_eq!(fed(3, 3, &format!("{text}\x1b[L")).rendered_lines(), vec!["aaa", "", "bbb"]);
    assert_eq!(fed(3, 3, &format!("{text}\x1b[M")).rendered_lines(), vec!["aaa", "ccc", ""]);
    assert_eq!(fed(3, 3, &format!("{text}\x1b[L\x1b[M")).rendered_lines(), vec!["aaa", "bbb", ""]);
    assert_eq!(fed(1, 5, "abcde\x1b[2G\x1b[2@").rendered_lines(), vec!["a  bc"]);
    assert_eq!(fed(1, 5, "abcde\x1b[2G\x1b[2P").rendered_lines(), vec!["ade"]);
    assert_eq!(fed(1, 5, "abcde\x1b[2G\x1b[2@\x1b[2P").rendered_lines(), vec!["abc"]);
    assert_eq!(fed(1, 5, "abcde\x1b[2G\x1b[2X").rendered_lines(), vec!["a  de"]);
}

#[test]
fn scrolling_functions() {
    let up = fed(3, 3, "aaa\r\nbbb\r\nccc\x1b[2S");
    assert_eq!(up.history_len(), 2);
    assert_eq!(up.rendered_lines(), vec!["aaa", "bbb", "ccc", "", ""]);
    let down = fed(3, 3, "aaa\r\nbbb\r\nccc\x1b[T");
    assert_eq!(down.rendered_lines(), vec!["", "aaa", "bbb"]);
    let index = fed(2, 3, "aaa\x1b[1;1H\x1bM");
    assert_eq!(index.rendered_lines(), vec!["", "aaa"]);
    let next = fed(2, 3, "ab\x1bEc\x1bDd");
    assert_eq!(next.rendered_lines(), vec!["ab", "c", " d"]);
}

#[test]
fn cursor_is_saved_and_restored() {
    assert_eq!(fed(2, 4, "ab\x1b7\x1b[2;4H\x1b8c").rendered_lines(), vec!["abc", ""]);
    assert_eq!(fed(2, 4, "ab\x1b[s\x1b[2;4H\x1b[uc").rendered_lines(), vec!["abc", ""]);
}

#[test]
fn reset_keeps_the_history_on_request() {
    let mut term = fed(1, 3, "a\r\nb\x1b[1m\x1bcx");
    assert_eq!(term.rendered_lines(), vec!["a", "x"]);
    assert_eq!(term.screen_rows()[0][0].style, Style::default());
    term.reset(false);
    assert_eq!(term.rendered_lines(), vec![""]);
    term.reset_to_size(2, 0);
    assert_eq!((term.rows(), term.cols()), (2, 1));
}

#[test]
fn operating_system_commands_are_skipped() {
    assert_eq!(fed(1, 4, "a\x1b]0;t\x07b").rendered_lines(), vec!["ab"]);
    assert_eq!(fed(1, 4, "a\x1b]0;t\x1b\\b").rendered_lines(), vec!["ab"]);
    assert_eq!(fed(1, 4, "a\x1b]0;\x1bxt\x07b").rendered_lines(), vec!["ab"]);
    assert_eq!(fed(1, 4, "a\x1b(Bb\x1b#8xc").rendered_lines(), vec!["abc"]);
    assert_eq!(fed(1, 4, "a\x00\x07\x0e\x7fb").rendered_lines(), vec!["ab"]);
}

#[test]
fn malformed_control_sequences_are_ignored() {
    assert_eq!(fed(1, 4, "ab\x1b[\u{e9}Dc").rendered_lines(), vec!["abc"]);
    assert_eq!(fed(1, 4, "ab\x1b[?1;xDc").rendered_lines(), vec!["abDc"]);
    // Unreadable parameters stand for the default, colons end a parameter.
    assert_eq!(fed(1, 4, "abc\x1b[1:7Dd").rendered_lines(), vec!["abd"]);
    assert_eq!(fed(1, 4, "abc\x1b[+2Dd").rendered_lines(), vec!["adc"]);
}

#[test]
fn renditions_set_the_style() {
    let plain = Style::default();
    assert_eq!(style_of("\x1b[1m"), Style { bold: true, ..plain });
    assert_eq!(style_of("\x1b[2m"), Style { dim: true, ..plain });
    assert_eq!(style_of("\x1b[7m"), Style { reverse: true, ..plain });
    assert_eq!(style_of("\x1b[1;2;22m"), plain);
    assert_eq!(style_of("\x1b[7;27m"), plain);
    assert_eq!(style_of("\x1b[31m"), Style { fg: Some(1), ..plain });
    assert_eq!(style_of("\x1b[97m"), Style { fg: Some(15), ..plain });
    assert_eq!(style_of("\x1b[42m"), Style { bg: Some(2), ..plain });
    assert_eq!(style_of("\x1b[107m"), Style { bg: Some(15), ..plain });
    assert_eq!(style_of("\x1b[31;39m"), plain);
    assert_eq!(style_of("\x1b[41;49m"), plain);
    assert_eq!(style_of("\x1b[31;1m\x1b[m"), plain);
    assert_eq!(style_of("\x1b[31;;1m"), Style { bold: true, ..plain });
    assert_eq!(style_of("\x1b[38;5;200m"), Style { fg: Some(200), ..plain });
    assert_eq!(style_of("\x1b[48;5;300m"), Style { bg: Some(44), ..plain });
    assert_eq!(
        style_of("\x1b[38;2;255;0;0;1m"),
        Style { fg: Some(196), bold: true, ..plain }
    );
    assert_eq!(style_of("\x1b[38;2;1;2m"), plain);
    assert_eq!(style_of("\x1b[38;9;1m"), Style { bold: true, ..plain });
    assert_eq!(style_of("\x1b[38m"), plain);
    assert_eq!(style_of("\x1b[70000;1m"), Style { bold: true, ..plain });
}

#[test]
fn resize_moves_rows_between_screen_and_history() {
    let mut term = fed(3, 4, "aaaa\r\nbbb\r\ncc");
    term.resize(2, 4);
    assert_eq!(term.history_len(), 1);
    assert_eq!(term.rendered_lines(), vec!["aaaa", "bbb", "cc"]);
    term.resize(3, 2);
    assert_eq!(term.rendered_lines(), vec!["aa", "bb", "cc", ""]);
    term.resize(0, 0);
    assert_eq!((term.rows(), term.cols()), (1, 1));
}

#[test]
fn growing_keeps_all_rows() {
    let mut term = fed(2, 4, "aaaa\r\nb\u{4e16}c\r\nd\r\ne");
    let before = term.rendered_lines();
    term.resize(4, 9);
    assert_eq!(term.rendered_lines()[..4], before[..]);
    assert_eq!(term.rendered_lines().len(), 6);
}

#[test]
fn resize_blanks_halves_of_wide_characters() {
    let mut term = fed(1, 4, "a\u{4e16}b");
    term.resize(1, 2);
    assert_eq!(term.rendered_lines(), vec!["a"]);
}

#[test]
fn resizing_twice_is_resizing_once() {
    let mut once = fed(3, 4, "aaaa\r\nbbb\r\ncc");
    once.resize(2, 3);
    let mut twice = fed(3, 4, "aaaa\r\nbbb\r\ncc");
    twice.resize(2, 3);
    twice.resize(2, 3);
    assert_eq!(once.rendered_rows(), twice.rendered_rows());
}

#[test]
fn palette_entries_match_the_rounded_formula() {
    for r in 0..=255u8 {
        for g in (0..=255u8).step_by(5) {
            for b in (0..=255u8).step_by(3) {
                let expected = if r == g && g == b {
                    if r < 8 {
                        16
                    } else if r > 248 {
                        231
                    } else {
                        (((r as f32 - 8.0) / 247.0) * 24.0).round() as u8 + 232
                    }
                } else {
                    16 + 36 * ((r as f32 / 255.0) * 5.0).round() as u8
                        + 6 * ((g as f32 / 255.0) * 5.0).round() as u8
                        + ((b as f32 / 255.0) * 5.0).round() as u8
                };
                assert_eq!(rgb_to_xterm256(r, g, b), expected, "{r} {g} {b}");
            }
        }
    }
    for grey in 0..=255u8 {
        let expected = if grey < 8 {
            16
        } else if grey > 248 {
            231
        } else {
            (((grey as f32 - 8.0) / 247.0) * 24.0).round() as u8 + 232
        };
        assert_eq!(rgb_to_xterm256(grey, grey, grey), expected, "{grey}");
    }
    assert_eq!(rgb_to_xterm256(255, 0, 0), 196);
}

#[test]
fn clamping() {
    assert_eq!(clamp(5, 0, 3), 3);
    assert_eq!(clamp(1, 2, 3), 2);
    assert_eq!(clamp(1, 5, 3), 3);
    assert_eq!(clamp_signed(-5, -3, 3), -3);
    assert_eq!(clamp_signed(9, -3, 3), 3);
    assert_eq!(clamp_signed(0, -3, 3), 0);
}
