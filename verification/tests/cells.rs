use logsplit_rs::cell::normalize_row_width;
use logsplit_rs::text::{is_control, is_white_space};
use logsplit_rs::{char_width, row_to_text, trim_row, wrap_styled_line, Cell, Style};

fn row(text: &str) -> Vec<Cell> {
    let mut cells = Vec::new();
    for ch in text.chars() {
        cells.push(Cell { ch, style: Style::default(), wide_cont: false });
        if char_width(ch) == 2 {
            cells.push(Cell { ch: ' ', style: Style::default(), wide_cont: true });
        }
    }
    cells
}

fn texts(rows: &[Vec<Cell>]) -> Vec<String> {
    rows.iter().map(|cells| row_to_text(cells)).collect()
}

#[test]
fn widths_follow_the_unicode_tables() {
    assert_eq!(char_width('a'), 1);
    assert_eq!(char_width('\u{7}'), 0);
    assert_eq!(char_width('\u{85}'), 0);
    assert_eq!(char_width('\u{301}'), 0);
    assert_eq!(char_width('\u{4e16}'), 2);
    assert_eq!(char_width('\u{1f600}'), 2);
    for ch in (0u32..=0x10ffff).filter_map(char::from_u32) {
        assert_eq!(
            char_width(ch),
            unicode_width::UnicodeWidthChar::width(ch).unwrap_or(0)
        );
        assert!(char_width(ch) <= 3);
        let bare = (ch as u32) < 0x20 || (0x7f..0xa0).contains(&(ch as u32));
        assert_eq!(unicode_width::UnicodeWidthChar::width(ch).is_none(), bare);
        if (' '..='~').contains(&ch) {
            assert_eq!(char_width(ch), 1);
        }
    }
}

#[test]
fn character_classes_follow_the_unicode_tables() {
    for ch in (0u32..=0x10ffff).filter_map(char::from_u32) {
        assert_eq!(is_white_space(ch), ch.is_whitespace());
        assert_eq!(is_control(ch), ch.is_control());
        if ch.is_ascii() {
            assert_eq!(ch.is_alphanumeric(), ch.is_ascii_alphanumeric());
            assert_eq!(
                ch.to_string().to_lowercase(),
                ch.to_ascii_lowercase().to_string()
            );
        }
    }
}

#[test]
fn blank_cells_keep_their_style() {
    let style = Style { bold: true, ..Style::default() };
    assert_eq!(Cell::blank(style), Cell { ch: ' ', style, wide_cont: false });
}

#[test]
fn trimming_removes_blanks_at_the_end_only() {
    assert_eq!(trim_row(&row(" a b  ")).len(), 4);
    assert_eq!(trim_row(&row("   ")).len(), 0);
    assert_eq!(trim_row(&row("a\u{4e16}")).len(), 3);
    assert_eq!(row_to_text(&row(" a\u{4e16}b ")), " a\u{4e16}b");
}

#[test]
fn rows_are_cut_or_filled_up() {
    let mut cells = row("abc");
    normalize_row_width(&mut cells, 5, Style::default());
    assert_eq!(cells.len(), 5);
    normalize_row_width(&mut cells, 2, Style::default());
    assert_eq!(row_to_text(&cells), "ab");
    let mut wide = row("a\u{4e16}b");
    normalize_row_width(&mut wide, 2, Style::default());
    assert_eq!(row_to_text(&wide), "a");
    normalize_row_width(&mut wide, 0, Style::default());
    assert!(wide.is_empty());
}

#[test]
fn lines_are_wrapped_to_the_width() {
    assert_eq!(texts(&wrap_styled_line(&row("abcdefg"), 3)), vec!["abc", "def", "g"]);
    assert_eq!(texts(&wrap_styled_line(&row("abcdef"), 3)), vec!["abc", "def"]);
    assert_eq!(texts(&wrap_styled_line(&row("   "), 3)), vec![""]);
    assert_eq!(texts(&wrap_styled_line(&row("ab"), 0)), vec!["a", "b"]);
    assert_eq!(
        texts(&wrap_styled_line(&row("ab\u{4e16}c"), 3)),
        vec!["ab", "\u{4e16}c"]
    );
    assert_eq!(
        texts(&wrap_styled_line(&row("\u{4e16}\u{4e16}"), 1)),
        vec!["\u{4e16}", "\u{4e16}"]
    );
}

#[test]
fn wrapping_loses_no_cells() {
    let line = row("ab\u{4e16}c d\u{1f600}efg  ");
    for width in 0..12 {
        let joined: Vec<Cell> = wrap_styled_line(&line, width).concat();
        let own: Vec<Cell> = trim_row(&line).into_iter().filter(|cell| !cell.wide_cont).collect();
        assert_eq!(joined, own);
    }
}

#[test]
fn segments_have_no_room_for_the_next_cell() {
    let line = row("ab\u{4e16}c d\u{1f600}ef\u{301}g\u{4e16}");
    for width in 0..12 {
        let segments = wrap_styled_line(&line, width);
        for pair in segments.windows(2) {
            let columns: usize = pair[0].iter().map(|cell| char_width(cell.ch).max(1)).sum();
            let next = char_width(pair[1][0].ch).max(1);
            assert!(columns + next > width.max(1));
        }
    }
}
