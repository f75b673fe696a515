use logsplit_rs::{
    apply_selection_highlight, first_selectable_col, last_selectable_col, move_word_point,
    next_col, normalize_col, previous_col, row_to_text, selection_text, Cell, Selection,
    SelectionMode, SelectionPoint, Style, WordMotion,
};

fn row(text: &str) -> Vec<Cell> {
    text.chars()
        .map(|ch| Cell {
            ch,
            style: Style::default(),
            wide_cont: false,
        })
        .collect()
}

#[test]
fn character_selection_spans_multiple_rows() {
    let selection = Selection {
        mode: SelectionMode::Character,
        anchor: SelectionPoint { row: 0, col: 1 },
        cursor: SelectionPoint { row: 2, col: 1 },
    };
    let rows = [row("alpha"), row("beta"), row("gamma")];
    let text = selection_text(selection, |idx| rows.get(idx).cloned());
    assert_eq!(text, "lpha\nbeta\nga");
}

#[test]
fn line_selection_copies_whole_rows() {
    let selection = Selection {
        mode: SelectionMode::Line,
        anchor: SelectionPoint { row: 2, col: 3 },
        cursor: SelectionPoint { row: 0, col: 0 },
    };
    let rows = [row("one"), row("two"), row("three")];
    let text = selection_text(selection, |idx| rows.get(idx).cloned());
    assert_eq!(text, "one\ntwo\nthree");
}

#[test]
fn word_motion_moves_across_rows() {
    let rows = [row("foo bar"), row("baz qux")];
    let start = SelectionPoint { row: 0, col: 0 };

    let next = move_word_point(
        start,
        rows.len(),
        |idx| rows.get(idx).cloned(),
        WordMotion::ForwardStart,
    );
    let end = move_word_point(
        next,
        rows.len(),
        |idx| rows.get(idx).cloned(),
        WordMotion::ForwardEnd,
    );
    let back = move_word_point(
        end,
        rows.len(),
        |idx| rows.get(idx).cloned(),
        WordMotion::BackwardStart,
    );

    assert_eq!(next, SelectionPoint { row: 0, col: 4 });
    assert_eq!(end, SelectionPoint { row: 0, col: 6 });
    assert_eq!(back, SelectionPoint { row: 0, col: 4 });
}

#[test]
fn word_motion_treats_punctuation_as_separate_word() {
    let rows = [row("foo::bar")];
    let start = SelectionPoint { row: 0, col: 0 };

    let next = move_word_point(
        start,
        rows.len(),
        |idx| rows.get(idx).cloned(),
        WordMotion::ForwardStart,
    );
    let next2 = move_word_point(
        next,
        rows.len(),
        |idx| rows.get(idx).cloned(),
        WordMotion::ForwardStart,
    );

    assert_eq!(next, SelectionPoint { row: 0, col: 3 });
    assert_eq!(next2, SelectionPoint { row: 0, col: 5 });
}

#[test]
fn forward_end_moves_to_next_word_when_already_at_run_end() {
    let rows = [row("foo bar")];
    let start = SelectionPoint { row: 0, col: 2 };

    let next = move_word_point(
        start,
        rows.len(),
        |idx| rows.get(idx).cloned(),
        WordMotion::ForwardEnd,
    );

    assert_eq!(next, SelectionPoint { row: 0, col: 6 });
}

#[test]
fn backward_start_moves_to_previous_word_when_already_at_run_start() {
    let rows = [row("foo bar")];
    let start = SelectionPoint { row: 0, col: 4 };

    let prev = move_word_point(
        start,
        rows.len(),
        |idx| rows.get(idx).cloned(),
        WordMotion::BackwardStart,
    );

    assert_eq!(prev, SelectionPoint { row: 0, col: 0 });
}

fn wide_row(text: &str) -> Vec<Cell> {
    let mut cells = Vec::new();
    for ch in text.chars() {
        cells.push(Cell { ch, style: Style::default(), wide_cont: false });
        if !ch.is_ascii() {
            cells.push(Cell { ch: ' ', style: Style::default(), wide_cont: true });
        }
    }
    cells
}

fn point(row: usize, col: usize) -> SelectionPoint {
    SelectionPoint { row, col }
}

fn moved(rows: &[Vec<Cell>], start: SelectionPoint, motion: WordMotion) -> SelectionPoint {
    move_word_point(start, rows.len(), |idx| rows.get(idx).cloned(), motion)
}

#[test]
fn columns_of_a_row() {
    let cells = wide_row("a\u{4e16}b ");
    assert_eq!(first_selectable_col(&cells), 0);
    assert_eq!(last_selectable_col(&cells), 4);
    assert_eq!(normalize_col(&cells, 2), 1);
    assert_eq!(normalize_col(&cells, 99), 4);
    assert_eq!(next_col(&cells, 1), 3);
    assert_eq!(next_col(&cells, 4), 4);
    assert_eq!(previous_col(&cells, 3), 1);
    assert_eq!(previous_col(&cells, 0), 0);
    assert_eq!(previous_col(&cells, next_col(&cells, 1)), 1);
    assert_eq!(normalize_col(&[], 7), 0);
    assert_eq!(last_selectable_col(&[]), 0);
}

#[test]
fn stepping_back_undoes_stepping_forward() {
    let whole = wide_row("a\u{4e16}b \u{4e16}");
    for cells in [&whole[..], &whole[2..], &whole[..6]] {
        for col in 0..cells.len() + 2 {
            let normal = normalize_col(cells, col);
            let next = next_col(cells, col);
            if next > normal {
                assert_eq!(previous_col(cells, next), normal);
            }
        }
    }
    assert!(whole[2].wide_cont);
    assert_eq!(next_col(&whole[2..], 0), 1);
    assert_eq!(previous_col(&whole[2..], 1), 0);
}

#[test]
fn selections_have_no_direction() {
    let rows = [row("alpha"), row("beta"), row("gamma")];
    for mode in [SelectionMode::Character, SelectionMode::Line] {
        let there = Selection { mode, anchor: point(0, 2), cursor: point(2, 1) };
        let back = Selection { mode, anchor: point(2, 1), cursor: point(0, 2) };
        assert_eq!(there.ordered(), (point(0, 2), point(2, 1)));
        assert_eq!(back.ordered(), there.ordered());
        assert_eq!(there.line_span(), 3);
        assert_eq!(back.line_span(), 3);
        assert_eq!(
            selection_text(there, |idx| rows.get(idx).cloned()),
            selection_text(back, |idx| rows.get(idx).cloned())
        );
    }
    let fresh = Selection::new(SelectionMode::Character, point(1, 2));
    assert_eq!((fresh.anchor, fresh.cursor), (point(1, 2), point(1, 2)));
    assert_eq!(fresh.line_span(), 1);
}

#[test]
fn highlighted_cells_are_the_copied_ones() {
    let selection = Selection {
        mode: SelectionMode::Character,
        anchor: point(0, 3),
        cursor: point(1, 1),
    };
    let rows = [wide_row("ab\u{4e16}cd"), wide_row("x\u{4e17}y")];
    let mut copied = Vec::new();
    for (index, cells) in rows.iter().enumerate() {
        let mut shown = cells.clone();
        apply_selection_highlight(&mut shown, index, &selection);
        assert_eq!(row_to_text(&shown), row_to_text(cells));
        let marked: String = shown
            .iter()
            .zip(cells)
            .filter(|(after, before)| after.style != before.style && !after.wide_cont)
            .map(|(after, _)| after.ch)
            .collect();
        copied.push(marked);
    }
    assert_eq!(copied.join("\n"), selection_text(selection, |idx| rows.get(idx).cloned()));
    assert_eq!(copied.join("\n"), "\u{4e16}cd\nx\u{4e17}");

    let mut outside = row("zzz");
    apply_selection_highlight(&mut outside, 2, &selection);
    assert_eq!(outside, row("zzz"));
    let mut empty: Vec<Cell> = Vec::new();
    apply_selection_highlight(&mut empty, 0, &selection);
    assert!(empty.is_empty());
}

#[test]
fn missing_rows_are_copied_as_empty_lines() {
    let selection = Selection {
        mode: SelectionMode::Line,
        anchor: point(0, 0),
        cursor: point(2, 0),
    };
    let rows = [row("one  "), row("")];
    let text = selection_text(selection, |idx| rows.get(idx).cloned());
    assert_eq!(text.lines().next(), Some("one"));
}

#[test]
fn letters_beyond_ascii_make_words() {
    let rows = [row("\u{e9}t\u{e9} \u{2014}\u{2014} na\u{ef}ve")];
    let first = moved(&rows, point(0, 0), WordMotion::ForwardStart);
    assert_eq!(first, point(0, 4));
    let second = moved(&rows, first, WordMotion::ForwardStart);
    assert_eq!(second, point(0, 7));
    assert_eq!(moved(&rows, second, WordMotion::ForwardEnd), point(0, 11));
    assert_eq!(moved(&rows, second, WordMotion::BackwardStart), point(0, 4));
}

#[test]
fn words_stop_at_the_ends_of_the_text() {
    let rows = [row("one two")];
    assert_eq!(moved(&rows, point(0, 4), WordMotion::ForwardEnd), point(0, 6));
    assert_eq!(moved(&rows, point(0, 0), WordMotion::BackwardStart), point(0, 0));
    let next = moved(&rows, point(0, 0), WordMotion::ForwardStart);
    assert_eq!(next, point(0, 4));
    let none: [Vec<Cell>; 0] = [];
    assert_eq!(moved(&none, point(0, 0), WordMotion::ForwardStart), point(0, 0));
}

#[test]
fn word_ends_are_found_from_white_space() {
    let rows = [row("  a bc")];
    assert_eq!(moved(&rows, point(0, 0), WordMotion::ForwardEnd), point(0, 2));
    assert_eq!(moved(&rows, point(0, 2), WordMotion::ForwardEnd), point(0, 5));
    assert_eq!(moved(&rows, point(0, 3), WordMotion::ForwardEnd), point(0, 5));
    let short = [row("  a ")];
    assert_eq!(moved(&short, point(0, 0), WordMotion::ForwardEnd), point(0, 2));
    assert_eq!(moved(&short, point(0, 3), WordMotion::ForwardEnd), point(0, 3));
    let below = [row("x "), row(" ab")];
    assert_eq!(moved(&below, point(0, 1), WordMotion::ForwardEnd), point(1, 2));
}

#[test]
fn word_starts_are_found_back_from_white_space() {
    let rows = [row("ab c d")];
    assert_eq!(moved(&rows, point(0, 4), WordMotion::BackwardStart), point(0, 3));
    assert_eq!(moved(&rows, point(0, 3), WordMotion::BackwardStart), point(0, 0));
    assert_eq!(moved(&rows, point(0, 2), WordMotion::BackwardStart), point(0, 0));
    let above = [row("ab c"), row("  d")];
    assert_eq!(moved(&above, point(1, 1), WordMotion::BackwardStart), point(0, 3));
    let blank = [row("  a")];
    assert_eq!(moved(&blank, point(0, 1), WordMotion::BackwardStart), point(0, 1));
}

#[test]
fn word_motions_start_at_the_nearest_character() {
    let rows = [row("foo bar"), wide_row("\u{4e16} baz")];
    assert_eq!(moved(&rows, point(0, 99), WordMotion::ForwardStart), point(1, 0));
    assert_eq!(moved(&rows, point(0, 99), WordMotion::BackwardStart), point(0, 4));
    assert_eq!(moved(&rows, point(1, 1), WordMotion::BackwardStart), point(0, 4));
    assert_eq!(moved(&rows, point(1, 99), WordMotion::ForwardEnd), point(1, 99));
    assert_eq!(moved(&rows, point(2, 0), WordMotion::BackwardStart), point(2, 0));
}

#[test]
fn word_motions_pass_over_wide_characters() {
    let rows = [wide_row("\u{4e16}\u{4e17} -x")];
    assert_eq!(moved(&rows, point(0, 0), WordMotion::ForwardEnd), point(0, 2));
    assert_eq!(moved(&rows, point(0, 1), WordMotion::ForwardStart), point(0, 5));
    assert_eq!(moved(&rows, point(0, 5), WordMotion::ForwardStart), point(0, 6));
    assert_eq!(moved(&rows, point(0, 5), WordMotion::BackwardStart), point(0, 0));
}
