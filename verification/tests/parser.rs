use nova::grid::Grid;
use nova::parser::AnsiExecutor;
use vte::{Params, Parser, Perform};

struct Driver<'a, 'b> {
    exec: &'b mut AnsiExecutor<'a>,
}

impl<'a, 'b> Perform for Driver<'a, 'b> {
    fn print(&mut self, c: char) {
        assert!(self.exec.grid.print_allowed(c));
        self.exec.print(c);
    }

    fn execute(&mut self, byte: u8) {
        if (0x0A..=0x0C).contains(&byte) {
            assert!(self.exec.grid.newline_allowed());
        }
        self.exec.execute(byte);
    }

    fn csi_dispatch(&mut self, params: &Params, intermediates: &[u8], _ignore: bool, action: char) {
        let params: Vec<Vec<u16>> = params.iter().map(|p| p.to_vec()).collect();
        self.exec.csi_dispatch(&params, intermediates, action);
    }

    fn esc_dispatch(&mut self, _intermediates: &[u8], _ignore: bool, byte: u8) {
        self.exec.esc_dispatch(byte);
    }

    fn osc_dispatch(&mut self, params: &[&[u8]], _bell_terminated: bool) {
        let params: Vec<Vec<u8>> = params.iter().map(|p| p.to_vec()).collect();
        self.exec.osc_dispatch(&params);
    }
}

fn make_grid(cols: usize, rows: usize) -> Grid {
    Grid::new(cols, rows)
}

fn print_str(grid: &mut Grid, s: &str) {
    let mut parser = Parser::new();
    let mut exec = AnsiExecutor { grid, bell_pending: false };
    let mut driver = Driver { exec: &mut exec };
    parser.advance(&mut driver, s.as_bytes());
}

#[test]
fn ascii_char_width_and_cursor() {
    let mut grid = make_grid(10, 5);
    print_str(&mut grid, "A");
    assert_eq!(grid.cells[0].c.as_str(), "A");
    assert_eq!(grid.cells[0].width, 1);
    assert_eq!(grid.cursor_x, 1);
}

#[test]
fn cjk_wide_char_occupies_two_columns() {
    let mut grid = make_grid(10, 5);
    print_str(&mut grid, "中");
    assert_eq!(grid.cells[0].c.as_str(), "中");
    assert_eq!(grid.cells[0].width, 2);
    assert_eq!(grid.cells[1].width, 0);
    assert_eq!(grid.cells[1].c.as_str(), "");
    assert_eq!(grid.cursor_x, 2);
}

#[test]
fn combining_accent_appended_to_base() {
    let mut grid = make_grid(10, 5);
    print_str(&mut grid, "e\u{0301}");
    assert_eq!(grid.cells[0].c.as_str(), "e\u{0301}");
    assert_eq!(grid.cells[0].width, 1);
    assert_eq!(grid.cursor_x, 1);
}

#[test]
fn zwj_emoji_sequence_in_single_cell() {
    let mut grid = make_grid(20, 5);
    print_str(&mut grid, "\u{1F468}\u{200D}\u{1F469}");
    assert_eq!(grid.cells[0].c.as_str(), "\u{1F468}\u{200D}\u{1F469}");
    assert_eq!(grid.cells[0].width, 2);
    assert_eq!(grid.cells[1].width, 0);
    assert_eq!(grid.cursor_x, 2);
}

#[test]
fn wide_char_at_line_end_wraps() {
    let mut grid = make_grid(3, 5);
    print_str(&mut grid, "ab中");
    assert_eq!(grid.cells[0].c.as_str(), "a");
    assert_eq!(grid.cells[1].c.as_str(), "b");
    let row1_start = 3;
    assert_eq!(grid.cells[row1_start].c.as_str(), "中");
    assert_eq!(grid.cells[row1_start].width, 2);
    assert_eq!(grid.cursor_x, 2);
    assert_eq!(grid.cursor_y, 1);
}

#[test]
fn multiple_wide_chars_cursor_tracking() {
    let mut grid = make_grid(10, 5);
    print_str(&mut grid, "你好");
    assert_eq!(grid.cells[0].c.as_str(), "你");
    assert_eq!(grid.cells[0].width, 2);
    assert_eq!(grid.cells[2].c.as_str(), "好");
    assert_eq!(grid.cells[2].width, 2);
    assert_eq!(grid.cursor_x, 4);
}

#[test]
fn family_emoji_zwj_sequence() {
    let mut grid = make_grid(20, 5);
    let family = "\u{1F468}\u{200D}\u{1F469}\u{200D}\u{1F467}\u{200D}\u{1F466}";
    print_str(&mut grid, family);
    assert_eq!(grid.cells[0].c.as_str(), family);
    assert_eq!(grid.cells[0].width, 2);
    assert_eq!(grid.cursor_x, 2);
}
