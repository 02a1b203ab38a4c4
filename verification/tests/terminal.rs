use nova::cli::ask_bytes;
use nova::session::clipboard_reply;
use nova::grid::{CellAttrs, ControlCommand, Grid, MouseMode, Rgb};
use nova::parser::AnsiExecutor;
use vte::{Params, Parser, Perform};

struct Driver<'a, 'b> {
    exec: &'b mut AnsiExecutor<'a>,
}

impl<'a, 'b> Perform for Driver<'a, 'b> {
    fn print(&mut self, c: char) {
        assert!(self.exec.grid.print_allowed(c));
        self.exec.print(c);
    }

    fn execute(&mut self, byte: u8) {
        if (0x0A..=0x0C).contains(&byte) {
            assert!(self.exec.grid.newline_allowed());
        }
        self.exec.execute(byte);
    }

    fn csi_dispatch(&mut self, params: &Params, intermediates: &[u8], _ignore: bool, action: char) {
        let params: Vec<Vec<u16>> = params.iter().map(|p| p.to_vec()).collect();
        self.exec.csi_dispatch(&params, intermediates, action);
    }

    fn esc_dispatch(&mut self, _intermediates: &[u8], _ignore: bool, byte: u8) {
        if byte == b'M' {
            assert!(self.exec.grid.reverse_index_allowed());
        }
        self.exec.esc_dispatch(byte);
    }

    fn osc_dispatch(&mut self, params: &[&[u8]], _bell_terminated: bool) {
        let params: Vec<Vec<u8>> = params.iter().map(|p| p.to_vec()).collect();
        self.exec.osc_dispatch(&params);
    }
}

fn feed(grid: &mut Grid, s: &str) -> bool {
    let mut parser = Parser::new();
    let mut exec = AnsiExecutor { grid, bell_pending: false };
    let mut driver = Driver { exec: &mut exec };
    parser.advance(&mut driver, s.as_bytes());
    exec.bell_pending
}

fn row_text(grid: &Grid, r: usize) -> String {
    let mut s = String::new();
    for c in 0..grid.cols {
        s.push_str(&grid.cells[r * grid.cols + c].c);
    }
    s
}

#[test]
fn new_grid_is_blank() {
    let grid = Grid::new(4, 3);
    assert_eq!(grid.cells.len(), 12);
    assert!(grid.cells.iter().all(|c| c.c == " " && c.width == 1));
    assert_eq!((grid.cursor_x, grid.cursor_y), (0, 0));
    assert_eq!((grid.scroll_top, grid.scroll_bottom), (0, 2));
    assert_eq!(grid.pwd, "~");
    assert!(grid.cursor_visible);
    assert_eq!(grid.mouse_mode, MouseMode::Off);
}

#[test]
fn text_then_crlf_moves_to_next_line() {
    let mut grid = Grid::new(10, 3);
    feed(&mut grid, "ab\r\ncd");
    assert_eq!(row_text(&grid, 0), "ab        ");
    assert_eq!(row_text(&grid, 1), "cd        ");
    assert_eq!((grid.cursor_x, grid.cursor_y), (2, 1));
}

#[test]
fn line_feed_at_bottom_scrolls_into_scrollback() {
    let mut grid = Grid::new(3, 2);
    feed(&mut grid, "aaa\r\nbbb\r\nccc");
    assert_eq!(row_text(&grid, 0), "bbb");
    assert_eq!(row_text(&grid, 1), "ccc");
    assert_eq!(grid.scrollback.len(), 1);
    let first: String = grid.scrollback[0].0.iter().map(|c| c.c.clone()).collect();
    assert_eq!(first, "aaa");
}

#[test]
fn autowrap_marks_continuation() {
    let mut grid = Grid::new(3, 3);
    feed(&mut grid, "abcd");
    assert_eq!(row_text(&grid, 0), "abc");
    assert_eq!(row_text(&grid, 1), "d  ");
    assert!(grid.row_continuation[1]);
    assert!(!grid.row_continuation[0]);
}

#[test]
fn cursor_position_and_erase_display() {
    let mut grid = Grid::new(5, 3);
    feed(&mut grid, "hello\x1b[2;3Hx");
    assert_eq!((grid.cursor_x, grid.cursor_y), (3, 1));
    assert_eq!(grid.cells[5 + 2].c, "x");
    feed(&mut grid, "\x1b[2J");
    assert!(grid.cells.iter().all(|c| c.c == " "));
}

#[test]
fn erase_in_line_from_cursor() {
    let mut grid = Grid::new(5, 1);
    feed(&mut grid, "abcde\x1b[1;3H\x1b[K");
    assert_eq!(row_text(&grid, 0), "ab   ");
    feed(&mut grid, "\x1b[1;1Hxyzuv\x1b[1;3H\x1b[1K");
    assert_eq!(row_text(&grid, 0), "   uv");
}

#[test]
fn cursor_moves_are_clamped() {
    let mut grid = Grid::new(5, 4);
    feed(&mut grid, "\x1b[10B\x1b[10C");
    assert_eq!((grid.cursor_x, grid.cursor_y), (4, 3));
    feed(&mut grid, "\x1b[2A\x1b[3D");
    assert_eq!((grid.cursor_x, grid.cursor_y), (1, 1));
}

#[test]
fn sgr_sets_colors_and_attributes() {
    let mut grid = Grid::new(5, 1);
    feed(&mut grid, "\x1b[1;4;38;2;10;20;30mA\x1b[0mB");
    let a = &grid.cells[0];
    assert!(a.attrs.contains(CellAttrs::BOLD));
    assert!(a.attrs.contains(CellAttrs::UNDERLINE));
    assert_eq!(a.fg, Some(Rgb { r: 10, g: 20, b: 30 }));
    let b = &grid.cells[1];
    assert_eq!(b.attrs.bits, 0);
    assert_eq!(b.fg, None);
}

#[test]
fn sgr_256_color_background() {
    let mut grid = Grid::new(5, 1);
    feed(&mut grid, "\x1b[48;5;196mX");
    assert_eq!(grid.cells[0].bg, Some(nova::color::color_256(196)));
    assert_eq!(nova::color::color_256(196), Rgb { r: 255, g: 0, b: 0 });
}

#[test]
fn private_modes_toggle_state() {
    let mut grid = Grid::new(5, 2);
    feed(&mut grid, "\x1b[?25l\x1b[?2004h\x1b[?1002h\x1b[?1006h");
    assert!(!grid.cursor_visible);
    assert!(grid.bracketed_paste);
    assert_eq!(grid.mouse_mode, MouseMode::Button);
    assert!(grid.mouse_sgr);
    feed(&mut grid, "\x1b[?25h\x1b[?2004l\x1b[?1002l");
    assert!(grid.cursor_visible);
    assert!(!grid.bracketed_paste);
    assert_eq!(grid.mouse_mode, MouseMode::Off);
}

#[test]
fn alt_screen_round_trip_restores_screen() {
    let mut grid = Grid::new(4, 2);
    feed(&mut grid, "main");
    let before: Vec<String> = grid.cells.iter().map(|c| c.c.clone()).collect();
    feed(&mut grid, "\x1b[?1049h");
    assert!(grid.alt_cells.is_some());
    assert!(grid.cells.iter().all(|c| c.c == " "));
    feed(&mut grid, "alt!");
    feed(&mut grid, "\x1b[?1049l");
    let after: Vec<String> = grid.cells.iter().map(|c| c.c.clone()).collect();
    assert_eq!(before, after);
    assert!(grid.alt_cells.is_none());
}

#[test]
fn device_status_report_answers_cursor_position() {
    let mut grid = Grid::new(10, 5);
    feed(&mut grid, "\x1b[3;4H\x1b[6n");
    assert_eq!(grid.output_queue, vec![b"\x1b[3;4R".to_vec()]);
}

#[test]
fn save_and_restore_cursor() {
    let mut grid = Grid::new(10, 5);
    feed(&mut grid, "\x1b[2;6H\x1b7\x1b[5;1H\x1b8");
    assert_eq!((grid.cursor_x, grid.cursor_y), (5, 1));
}

#[test]
fn tab_moves_to_next_stop() {
    let mut grid = Grid::new(20, 1);
    feed(&mut grid, "ab\t");
    assert_eq!(grid.cursor_x, 8);
    feed(&mut grid, "\t\t");
    assert_eq!(grid.cursor_x, 19);
}

#[test]
fn backspace_and_bell() {
    let mut grid = Grid::new(5, 1);
    let bell = feed(&mut grid, "ab\x08\x07");
    assert!(bell);
    assert_eq!(grid.cursor_x, 1);
}

#[test]
fn reverse_index_at_top_scrolls_down() {
    let mut grid = Grid::new(3, 2);
    feed(&mut grid, "abc\x1b[1;1H\x1bM");
    assert_eq!(row_text(&grid, 0), "   ");
    assert_eq!(row_text(&grid, 1), "abc");
}

#[test]
fn scroll_region_limits_scrolling() {
    let mut grid = Grid::new(2, 4);
    feed(&mut grid, "aa\r\nbb\r\ncc\r\ndd");
    feed(&mut grid, "\x1b[2;3r\x1b[3;1H\n");
    assert_eq!(row_text(&grid, 0), "aa");
    assert_eq!(row_text(&grid, 1), "cc");
    assert_eq!(row_text(&grid, 2), "  ");
    assert_eq!(row_text(&grid, 3), "dd");
}

#[test]
fn insert_and_delete_characters() {
    let mut grid = Grid::new(5, 1);
    feed(&mut grid, "abcde\x1b[1;2H\x1b[2@");
    assert_eq!(row_text(&grid, 0), "a  bc");
    feed(&mut grid, "\x1b[1;2H\x1b[2P");
    assert_eq!(row_text(&grid, 0), "abc  ");
}

#[test]
fn osc7_sets_working_directory() {
    let mut grid = Grid::new(5, 1);
    feed(&mut grid, "\x1b]7;file://host/home/me\x07");
    assert_eq!(grid.pwd, "/home/me");
    feed(&mut grid, "\x1b]7;ssh://box\x07");
    assert_eq!(grid.pwd, "ssh:box");
    feed(&mut grid, "\x1b]7;ftp://x\x07");
    assert_eq!(grid.pwd, "ssh:box");
}

#[test]
fn osc8_links_cells_until_closed() {
    let mut grid = Grid::new(6, 1);
    feed(&mut grid, "\x1b]8;;https://a.b\x07ab\x1b]8;;\x07c");
    assert_eq!(grid.cells[0].uri.as_ref().map(|l| l.uri.as_str()), Some("https://a.b"));
    assert_eq!(grid.cells[1].uri.as_ref().map(|l| l.uri.as_str()), Some("https://a.b"));
    assert!(grid.cells[2].uri.is_none());
    assert!(grid.current_uri.is_none());
}

#[test]
fn osc52_clipboard_requests() {
    let mut grid = Grid::new(5, 1);
    feed(&mut grid, "\x1b]52;c;aGVsbG8=\x07\x1b]52;c;?\x07\x1b]52;c;!!!\x07");
    assert_eq!(
        grid.control_queue,
        vec![ControlCommand::SetClipboard("hello".to_string()), ControlCommand::RequestClipboard]
    );
}

#[test]
fn osc777_shell_integration() {
    let mut grid = Grid::new(5, 1);
    feed(
        &mut grid,
        "\x1b]777;ask_ai;d2h5\x07\x1b]777;command_failure;2\x07\x1b]777;command_complete\x07\x1b]777;explain_ai\x07\x1b]777;command_failure;x\x07",
    );
    assert_eq!(
        grid.control_queue,
        vec![
            ControlCommand::OpenAskAi { preset: Some("why".to_string()) },
            ControlCommand::CommandFailure(2),
            ControlCommand::CommandComplete(0),
            ControlCommand::OpenExplainAi { preset: None },
            ControlCommand::CommandFailure(1),
        ]
    );
}

#[test]
fn resize_keeps_text_and_clamps_cursor() {
    let mut grid = Grid::new(4, 3);
    feed(&mut grid, "ab\r\ncd\r\nef");
    grid.resize(6, 3);
    assert_eq!(grid.cols, 6);
    assert_eq!(grid.cells.len(), 18);
    assert_eq!(&grid.cells[0].c, "c");
    assert_eq!(&grid.cells[6].c, "e");
    assert_eq!(grid.scrollback.len(), 1);
    assert_eq!(grid.scrollback[0].0[0].c, "a");
    grid.resize(2, 2);
    assert!(grid.cursor_x < 2 && grid.cursor_y < 2);
    assert_eq!(grid.cells.len(), 4);
}

#[test]
fn scroll_up_and_down_commands() {
    let mut grid = Grid::new(2, 3);
    feed(&mut grid, "aa\r\nbb\r\ncc");
    feed(&mut grid, "\x1b[1S");
    assert_eq!(row_text(&grid, 0), "bb");
    assert_eq!(row_text(&grid, 2), "  ");
    feed(&mut grid, "\x1b[1T");
    assert_eq!(row_text(&grid, 0), "  ");
    assert_eq!(row_text(&grid, 1), "bb");
}

#[test]
fn scrollback_is_bounded_by_limit() {
    let mut grid = Grid::new(2, 1);
    grid.scrollback_limit = 3;
    for _ in 0..10 {
        feed(&mut grid, "x\n");
    }
    assert!(grid.scrollback.len() <= 3);
}

#[test]
fn ask_sequence_reaches_the_terminal() {
    let mut grid = Grid::new(5, 1);
    let bytes = ask_bytes(&vec!["why".to_string(), "é?".to_string()]);
    feed(&mut grid, std::str::from_utf8(&bytes).unwrap());
    assert_eq!(grid.control_queue, vec![ControlCommand::OpenAskAi { preset: Some("why é?".to_string()) }]);
}

#[test]
fn resize_to_same_size_changes_nothing() {
    let mut grid = Grid::new(4, 3);
    feed(&mut grid, "ab\r\ncd");
    let cells: Vec<String> = grid.cells.iter().map(|c| c.c.clone()).collect();
    let cursor = (grid.cursor_x, grid.cursor_y);
    grid.resize(4, 3);
    let after: Vec<String> = grid.cells.iter().map(|c| c.c.clone()).collect();
    assert_eq!(after, cells);
    assert_eq!((grid.cursor_x, grid.cursor_y), cursor);
    assert!(grid.scrollback.is_empty());
}

#[test]
fn resize_reflows_wrapped_lines() {
    let mut grid = Grid::new(4, 4);
    feed(&mut grid, "abcdef");
    assert!(grid.row_continuation[1]);
    grid.resize(3, 4);
    let rows: Vec<(String, bool)> = grid
        .scrollback
        .iter()
        .map(|(cells, cont)| (cells.iter().map(|c| c.c.clone()).collect::<String>(), *cont))
        .collect();
    assert_eq!(rows[0], ("abc".to_string(), false));
    assert_eq!(rows[1], ("def".to_string(), true));
    assert_eq!(rows[2], ("   ".to_string(), true));
    let joined: String = rows.iter().take(3).map(|(t, _)| t.clone()).collect();
    assert_eq!(joined, "abcdef   ");
}

#[test]
fn clipboard_answer_reads_back_as_the_same_text() {
    let mut grid = Grid::new(5, 1);
    let bytes = clipboard_reply("hé llo");
    feed(&mut grid, std::str::from_utf8(&bytes).unwrap());
    assert_eq!(grid.control_queue, vec![ControlCommand::SetClipboard("hé llo".to_string())]);
}

/// The text of a grid: logical lines of the scrollback then the screen, each without
/// trailing spaces, without empty lines at the end.
fn grid_text(grid: &Grid) -> Vec<String> {
    let mut rows: Vec<(String, bool)> = grid
        .scrollback
        .iter()
        .map(|(cells, cont)| (cells.iter().map(|c| c.c.clone()).collect::<String>(), *cont))
        .collect();
    for r in 0..grid.rows {
        rows.push((row_text(grid, r), grid.row_continuation[r]));
    }
    let mut lines: Vec<String> = Vec::new();
    for (t, cont) in rows {
        if cont && !lines.is_empty() {
            lines.last_mut().unwrap().push_str(&t);
        } else {
            lines.push(t);
        }
    }
    let mut lines: Vec<String> = lines.into_iter().map(|l| l.trim_end_matches(' ').to_string()).collect();
    while lines.last().map(|l| l.is_empty()).unwrap_or(false) {
        lines.pop();
    }
    lines
}

#[test]
fn resizing_keeps_the_text_of_the_grid() {
    let mut grid = Grid::new(5, 4);
    feed(&mut grid, "hello world\r\nab\r\n\r\nxyz");
    let before = grid_text(&grid);
    assert_eq!(before, vec!["hello world", "ab", "", "xyz"]);
    grid.resize(3, 6);
    assert_eq!(grid_text(&grid), before);
    grid.resize(8, 2);
    assert_eq!(grid_text(&grid), before);
    grid.resize(20, 10);
    assert_eq!(grid_text(&grid), before);
}

#[test]
fn leaving_the_alternate_screen_after_work_restores_the_primary_one() {
    let mut grid = Grid::new(6, 3);
    feed(&mut grid, "one\r\ntwo");
    let cells: Vec<String> = grid.cells.iter().map(|c| c.c.clone()).collect();
    let cursor = (grid.cursor_x, grid.cursor_y);
    feed(&mut grid, "\x1b[?1049h");
    feed(&mut grid, "\x1b[31mfull screen\r\n\x1b[2J\x1b[3;1Hbottom\x1b[?1049h\x1b[1S\x1b]7;file://h/tmp\x07");
    feed(&mut grid, "\x1b[?1049l");
    let after: Vec<String> = grid.cells.iter().map(|c| c.c.clone()).collect();
    assert_eq!(after, cells);
    assert_eq!((grid.cursor_x, grid.cursor_y), cursor);
    assert_eq!((grid.scroll_top, grid.scroll_bottom), (0, 2));
    assert!(grid.current_fg.is_none());
    assert!(grid.scrollback.is_empty());
}
