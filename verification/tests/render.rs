use nova::grid::{CellAttrs, Grid, Rgb};
use nova::render::{paint_row, render_rows, search_highlight, style_cell, Paint, SpanStyle, Theme};

fn theme() -> Theme {
    Theme {
        foreground: Rgb { r: 230, g: 230, b: 230 },
        background: Rgb { r: 20, g: 20, b: 20 },
        accent: Rgb { r: 123, g: 147, b: 253 },
        cursor: Rgb { r: 255, g: 200, b: 0 },
    }
}

fn plain(fg: Paint) -> SpanStyle {
    SpanStyle {
        fg,
        fg_dim: false,
        bg: None,
        bg_dim: false,
        bold: false,
        italic: false,
        underline: false,
        strikethrough: false,
    }
}

#[test]
fn cell_styles_follow_attributes() {
    let t = theme();
    assert_eq!(style_cell(None, None, 0, t), plain(Paint::Color(t.foreground)));
    let bold_dim = style_cell(None, None, CellAttrs::BOLD | CellAttrs::DIM, t);
    assert!(bold_dim.bold && bold_dim.fg_dim);
    let rev = style_cell(None, None, CellAttrs::REVERSE, t);
    assert_eq!((rev.fg, rev.bg), (Paint::Color(t.background), Some(Paint::Color(t.accent))));
    let red = Paint::Color(Rgb { r: 200, g: 0, b: 0 });
    let rev2 = style_cell(Some(red), None, CellAttrs::REVERSE | CellAttrs::DIM, t);
    assert_eq!((rev2.fg, rev2.fg_dim, rev2.bg, rev2.bg_dim), (Paint::Color(t.background), false, Some(red), true));
    let white = Paint::Color(Rgb { r: 240, g: 240, b: 240 });
    let black = Paint::Color(Rgb { r: 10, g: 10, b: 10 });
    assert_eq!(style_cell(Some(black), Some(white), 0, t).bg, Some(Paint::Color(t.accent)));
    assert_eq!(style_cell(Some(red), Some(white), 0, t).bg, Some(white));
}

#[test]
fn search_highlight_marks_row_matches() {
    let matches = vec![(false, 0, 1, 3), (true, 0, 0, 2), (false, 0, 4, 9)];
    let (m, c) = search_highlight(&matches, Some(2), false, 0, 6).unwrap();
    assert_eq!(m, vec![false, true, true, false, true, true]);
    assert_eq!(c, vec![false, false, false, false, true, true]);
    assert!(search_highlight(&matches, None, false, 1, 6).is_none());
}

#[test]
fn rows_are_painted_with_selection_cursor_and_search() {
    let t = theme();
    let mut grid = Grid::new(4, 2);
    for (i, ch) in "abcd".chars().enumerate() {
        grid.cells[i].c = ch.to_string();
    }
    let row = paint_row(&grid.cells[0..4], Some(3), 0, Some((1, 0, 2, 0)), None, &[], None, t);
    let texts: Vec<&str> = row.iter().map(|(s, _)| s.as_str()).collect();
    assert_eq!(texts, vec!["a", "b", "c", "d"]);
    assert_eq!(row[0].1, plain(Paint::Color(t.foreground)));
    assert_eq!(row[1].1.fg, Paint::Color(t.background));
    assert_eq!(row[1].1.bg, Some(Paint::Color(t.accent)));
    assert_eq!(row[3].1.fg, Paint::Color(t.cursor));
    assert!(row[3].1.underline);
    let search = (&[false, false, true, true][..], &[false, false, false, true][..]);
    let row2 = paint_row(&grid.cells[0..4], None, 0, None, None, &[], Some(search), t);
    assert_eq!(row2[2].1.bg, Some(Paint::SearchMatch));
    assert_eq!((row2[3].1.fg, row2[3].1.bg), (Paint::SearchCurrentText, Some(Paint::SearchCurrent)));
    let all = render_rows(&grid, None, 0, None, None, &vec![], None, t);
    assert_eq!(all.len(), 2);
    assert_eq!(all[0][0].1.fg, Paint::Color(t.cursor));
    assert_eq!(all[0][1].1, plain(Paint::Color(t.foreground)));
    grid.cursor_visible = false;
    let hidden = render_rows(&grid, None, 0, None, None, &vec![], None, t);
    assert_eq!(hidden[0][0].1, plain(Paint::Color(t.foreground)));
}
