use logsplit_rs::render::DrawOp;
use logsplit_rs::{
    apply_style, cell_prefix_width, char_width, clear_segment, common_prefix_len, draw_cells,
    overlay_cells, row_to_text, Cell, Style,
};

fn row(text: &str) -> Vec<Cell> {
    let mut cells = Vec::new();
    for ch in text.chars() {
        cells.push(Cell { ch, style: Style::default(), wide_cont: false });
        if char_width(ch) == 2 {
            cells.push(Cell { ch: ' ', style: Style::default(), wide_cont: true });
        }
    }
    cells
}

fn styled(ch: char, style: Style) -> Cell {
    Cell { ch, style, wide_cont: false }
}

fn shown(ops: &[DrawOp]) -> String {
    let mut text = String::new();
    for op in ops {
        match op {
            DrawOp::MoveTo { x, y } => text.push_str(&format!("<{x},{y}>")),
            DrawOp::Print(part) => text.push_str(part),
            DrawOp::Reset => text.push('R'),
            DrawOp::Foreground(n) => text.push_str(&format!("f{n}")),
            DrawOp::Background(n) => text.push_str(&format!("b{n}")),
            DrawOp::Bold => text.push('*'),
            DrawOp::Dim => text.push('.'),
            DrawOp::Reverse => text.push('!'),
            DrawOp::ClearLine => text.push_str("[line]"),
            DrawOp::ClearRight => text.push_str("[right]"),
        }
    }
    text
}

#[test]
fn styles_are_set_from_scratch() {
    let style = Style { fg: Some(1), bg: Some(2), bold: true, dim: true, reverse: true };
    assert_eq!(shown(&apply_style(style)), "Rf1b2*.!");
    assert_eq!(shown(&apply_style(Style::default())), "R");
}

#[test]
fn segments_are_cleared_with_spaces() {
    assert_eq!(shown(&clear_segment(3, 2, 4)), "<2,3>R    ");
}

#[test]
fn cells_are_drawn_in_runs_of_one_style() {
    let red = Style { fg: Some(1), ..Style::default() };
    let cells = vec![
        styled('a', Style::default()),
        styled('b', red),
        styled('c', red),
        styled('d', Style::default()),
    ];
    let drawn = shown(&draw_cells(5, 2, &cells, 80));
    assert_eq!(
        drawn.replace("R", "").replace("f1", ""),
        "<2,5>a<3,5>bc<5,5>d"
    );
    assert!(drawn.contains("f1"));
}

#[test]
fn cells_outside_the_width_are_not_drawn() {
    let all = shown(&draw_cells(0, 0, &row("abcdef"), 3));
    assert!(all.contains("abc") && !all.contains("d"));
    let wide = shown(&draw_cells(0, 0, &row("ab\u{4e16}c"), 3));
    assert!(wide.contains("ab") && !wide.contains('\u{4e16}'));
    let whole = shown(&draw_cells(0, 0, &row("ab\u{4e16}c"), 5));
    assert!(whole.contains("ab\u{4e16}c"));
}

#[test]
fn common_starts_are_found() {
    assert_eq!(common_prefix_len(&row("abcd"), &row("abxd")), 2);
    assert_eq!(common_prefix_len(&row("ab"), &row("abc")), 2);
    assert_eq!(common_prefix_len(&row(""), &row("abc")), 0);
    let bold = Style { bold: true, ..Style::default() };
    assert_eq!(common_prefix_len(&[styled('a', bold)], &row("a")), 0);
}

#[test]
fn widths_of_prefixes_are_summed() {
    let cells = row("a\u{4e16}b");
    assert_eq!(cell_prefix_width(&cells, 0), 0);
    assert_eq!(cell_prefix_width(&cells, 2), 3);
    assert_eq!(cell_prefix_width(&cells, 3), 3);
    assert_eq!(cell_prefix_width(&cells, 99), 4);
}

#[test]
fn overlays_stay_inside_their_place() {
    let mut dest = row("..........");
    overlay_cells(&mut dest, 2, &row("ab\u{4e16}cd"), 5);
    assert_eq!(row_to_text(&dest), "..ab\u{4e16}c...");
    assert!(dest[5].wide_cont);
    let mut narrow = row("....");
    overlay_cells(&mut narrow, 1, &row("ab\u{4e16}"), 3);
    assert_eq!(row_to_text(&narrow), ".ab.");
    let mut short = row("...");
    overlay_cells(&mut short, 1, &row("abcdef"), 9);
    assert_eq!(row_to_text(&short), ".ab");
    overlay_cells(&mut short, 7, &row("x"), 9);
    assert_eq!(row_to_text(&short), ".ab");
}
