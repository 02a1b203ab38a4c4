use nova::ai::{diagnostic_banner, diagnostic_question};
use nova::grid::{Grid, MouseMode};
use nova::interaction::{
    click_selection, drag_selection_end, next_click_count, palette_navigate, reports_motion, scroll_offset_after,
    search_next, search_prev, search_scroll_offset, shift_selection_row, til_home, wheel_report,
};
use nova::config::{
    accent_cuts_ok, hex_color_cuts_ok, os_display_name, set_recorded_binding, set_theme_color, ColorField, KeybindingsConfig,
    SettingsTab, ThemeColorsConfig,
};
use nova::palette::{palette_action_at, PaletteAction};
use nova::session::{clipboard_reply, paste_bytes, paste_warning_reason};
use nova::tabs::{CloseTarget, TabPanes, TabStrip};
use nova::bell::BellBlink;
use nova::config::{derive_available_shells, detect_shells, BellType, GeneralConfig};
use nova::window::{dir_to_cursor, grid_size, resize_direction, split_grid_size, Direction, ResizeCursor};

fn grid_with_text(cols: usize, rows: usize, lines: &[&str]) -> Grid {
    let mut g = Grid::new(cols, rows);
    for (r, line) in lines.iter().enumerate() {
        for (c, ch) in line.chars().enumerate() {
            g.cells[r * cols + c].c = ch.to_string();
        }
    }
    g
}

#[test]
fn tab_strip_open_switch_close() {
    let mut t = TabStrip::new();
    assert_eq!((t.ids.clone(), t.active, t.next_id), (vec![0], 0, 1));
    assert_eq!(t.open_tab(), 1);
    assert_eq!(t.open_tab(), 2);
    assert_eq!((t.ids.clone(), t.active), (vec![0, 1, 2], 2));
    t.next_tab();
    assert_eq!(t.active, 0);
    t.prev_tab();
    assert_eq!(t.active, 2);
    t.switch_tab(1);
    assert_eq!(t.active_id(), 1);
    t.switch_tab(7);
    assert_eq!(t.active, 1);
    t.close_tab(2);
    assert_eq!((t.ids.clone(), t.active), (vec![0, 1], 1));
    t.close_tab(1);
    assert_eq!((t.ids.clone(), t.active), (vec![0], 0));
    t.close_tab(0);
    assert_eq!((t.ids.clone(), t.active, t.next_id), (vec![3], 0, 4));
}

#[test]
fn palette_and_search_navigation() {
    assert_eq!(palette_navigate(0, -1, 4), 3);
    assert_eq!(palette_navigate(3, 1, 4), 0);
    assert_eq!(palette_navigate(1, 1, 4), 2);
    assert_eq!(palette_navigate(2, -7, 4), 3);
    assert_eq!(palette_navigate(5, 1, 0), 5);
    assert_eq!(search_next(2, 3), 0);
    assert_eq!(search_next(0, 3), 1);
    assert_eq!(search_prev(0, 3), 2);
    assert_eq!(search_prev(2, 3), 1);
    assert_eq!(search_scroll_offset(true, 3, 10), 7);
    assert_eq!(search_scroll_offset(false, 3, 10), 0);
}

#[test]
fn home_directory_is_shortened() {
    assert_eq!(til_home("/home/me/src", "/home/me"), "~/src");
    assert_eq!(til_home("/home/me", "/home/me"), "~");
    assert_eq!(til_home("/tmp", "/home/me"), "/tmp");
    assert_eq!(til_home("/tmp", ""), "~/tmp");
}

#[test]
fn clicks_select_words_and_lines() {
    let g = grid_with_text(10, 2, &["foo bar_1 ", "xyz"]);
    assert_eq!(next_click_count(1, Some((5, 0)), Some((5, 0)), true), 2);
    assert_eq!(next_click_count(2, Some((5, 0)), Some((5, 0)), true), 3);
    assert_eq!(next_click_count(3, Some((5, 0)), Some((5, 0)), true), 3);
    assert_eq!(next_click_count(2, Some((5, 0)), Some((6, 0)), true), 1);
    assert_eq!(next_click_count(2, Some((5, 0)), Some((5, 0)), false), 1);
    assert_eq!(next_click_count(2, None, None, true), 1);
    assert_eq!(click_selection(&g, 0, Some((5, 0)), 1), (Some((5, 0)), Some((5, 0))));
    assert_eq!(click_selection(&g, 0, Some((5, 0)), 2), (Some((4, 0)), Some((8, 0))));
    assert_eq!(click_selection(&g, 0, Some((5, 1)), 3), (Some((0, 1)), Some((9, 1))));
    assert_eq!(click_selection(&g, 0, None, 2), (None, None));
    assert_eq!(drag_selection_end(&g, 0, Some((1, 0)), 2), Some((2, 0)));
    assert_eq!(drag_selection_end(&g, 0, Some((1, 1)), 3), Some((9, 1)));
    assert_eq!(drag_selection_end(&g, 0, Some((1, 1)), 1), Some((1, 1)));
}

#[test]
fn pointer_motion_and_wheel() {
    assert!(reports_motion(MouseMode::AnyEvent, false));
    assert!(reports_motion(MouseMode::Button, true));
    assert!(!reports_motion(MouseMode::Button, false));
    assert!(!reports_motion(MouseMode::Normal, true));
    assert_eq!(wheel_report(true, false, false, false, true, 2, 3), b"\x1b[<65;3;4M".to_vec());
    assert_eq!(wheel_report(false, false, true, true, true, 0, 0), b"\x1b[<88;1;1M".to_vec());
    assert_eq!(wheel_report(false, false, false, false, false, 0, 300), vec![0x1b, b'[', b'M', 96, 33, 255]);
}

#[test]
fn wheel_scrolling_and_selection_follow() {
    assert_eq!(scroll_offset_after(0, 3, true, 10), 3);
    assert_eq!(scroll_offset_after(9, 3, true, 10), 10);
    assert_eq!(scroll_offset_after(2, 3, false, 10), 0);
    assert_eq!(scroll_offset_after(scroll_offset_after(4, 3, true, 10), 3, false, 10), 4);
    assert_eq!(shift_selection_row(5, 0, 3), 8);
    assert_eq!(shift_selection_row(1, 3, 0), 0);
}

#[test]
fn diagnosis_question_text() {
    let q = diagnostic_question(2, "ls: x: No such file");
    assert!(q.starts_with("The last command exited with code 2. Output:\nls: x: No such file\n\nRespond in EXACTLY"));
    assert!(q.ends_with("\"command_to_solve\": \"command to fix it\" or null}"));
    assert!(diagnostic_question(-5, "").starts_with("The last command exited with code -5. Output:\n\n\n"));
}

#[test]
fn split_panes() {
    let mut p = TabPanes::new(4);
    assert_eq!(p.close_target(), CloseTarget::Tab);
    assert!(p.split_pane(9));
    assert_eq!(p, TabPanes { primary: 4, split: Some(9), on_split: true });
    assert!(!p.split_pane(10));
    assert_eq!(p.close_target(), CloseTarget::SplitPane);
    p.on_split = false;
    assert_eq!(p.close_target(), CloseTarget::LeftPane);
    p.close_left_pane();
    assert_eq!(p, TabPanes { primary: 9, split: None, on_split: false });
    assert!(p.split_pane(11));
    p.close_split_pane();
    assert_eq!(p, TabPanes { primary: 9, split: None, on_split: false });
}

#[test]
fn palette_actions() {
    assert_eq!(palette_action_at("", 0), Some(PaletteAction::OpenAskAi));
    assert_eq!(palette_action_at("", 3), Some(PaletteAction::OpenSettings));
    assert_eq!(palette_action_at("tab", 0), Some(PaletteAction::NewTab));
    assert_eq!(palette_action_at("err", 0), Some(PaletteAction::ExplainError));
    assert_eq!(palette_action_at("tab", 1), None);
}

#[test]
fn recorded_bindings_and_os_names() {
    let mut kb = KeybindingsConfig {
        new_tab: "a".into(),
        close_tab: "b".into(),
        next_tab: "c".into(),
        prev_tab: "d".into(),
        paste: "e".into(),
        copy: "f".into(),
    };
    set_recorded_binding(&mut kb, 4, "ctrl+v".into());
    assert_eq!(kb.paste, "ctrl+v");
    set_recorded_binding(&mut kb, 9, "x".into());
    assert_eq!((kb.new_tab.as_str(), kb.copy.as_str()), ("a", "f"));
    assert_eq!(os_display_name("macos"), "macOS");
    assert_eq!(os_display_name("linux"), "Linux");
    assert_eq!(os_display_name("freebsd"), "freebsd");
}

#[test]
fn paste_and_clipboard_bytes() {
    assert_eq!(paste_bytes("ls\n", false), b"ls\n".to_vec());
    assert_eq!(paste_bytes("é", true), b"\x1b[200~\xc3\xa9\x1b[201~".to_vec());
    assert_eq!(clipboard_reply("hi"), b"\x1b]52;c;aGk=\x07".to_vec());
    assert_eq!(clipboard_reply(""), b"\x1b]52;c;\x07".to_vec());
    assert_eq!(paste_warning_reason("a\nb"), "Contains multiple lines. Pasting may execute unintended commands.");
    assert_eq!(paste_warning_reason("rm -rf /"), "May contain dangerous commands.");
}

#[test]
fn theme_colors_from_settings() {
    let mut c = ThemeColorsConfig {
        background: "#000000".into(),
        foreground: "#ffffff".into(),
        accent: "#7b93fd".into(),
        foreground_muted: "#888888".into(),
        border: "#333333".into(),
        cursor: "#ffffff".into(),
    };
    assert!(set_theme_color(&mut c, ColorField::Border, "#123456".into()));
    assert_eq!(c.border, "#123456");
    assert!(!set_theme_color(&mut c, ColorField::Cursor, "#12345".into()));
    assert_eq!(c.cursor, "#ffffff");
    assert!(hex_color_cuts_ok("#ffffff"));
    assert!(hex_color_cuts_ok("#é1"));
    assert!(!hex_color_cuts_ok("#aéaaa"));
    assert!(hex_color_cuts_ok("#zzéaa"));
    assert!(accent_cuts_ok("#abc"));
    assert!(!accent_cuts_ok("#aéaaaa"));
    assert_eq!(SettingsTab::StatusBar.label(), "Status Bar");
    assert!(SettingsTab::Raw.shows_raw_text());
    assert!(!SettingsTab::Theme.shows_raw_text());
}

// ---- window frame ----

#[test]
fn pane_grids_keep_their_minimum_size() {
    assert_eq!(grid_size(3, 2), (10, 5));
    assert_eq!(grid_size(10, 5), (10, 5));
    assert_eq!(grid_size(158, 41), (158, 41));
    assert_eq!(split_grid_size(2, 50, 1), (5, 50, 5));
    assert_eq!(split_grid_size(70, 0, 30), (70, 5, 30));
}

#[test]
fn resize_edges_of_the_window() {
    assert_eq!(resize_direction(true, true, true, true), None);
    assert_eq!(resize_direction(true, false, false, false), None);
    assert_eq!(resize_direction(false, true, true, false), Some(Direction::SouthWest));
    assert_eq!(resize_direction(false, true, false, true), Some(Direction::SouthEast));
    assert_eq!(resize_direction(false, true, true, true), Some(Direction::SouthWest));
    assert_eq!(resize_direction(false, true, false, false), Some(Direction::South));
    assert_eq!(resize_direction(false, false, true, true), Some(Direction::West));
    assert_eq!(resize_direction(false, false, false, true), Some(Direction::East));
    assert_eq!(resize_direction(false, false, false, false), None);
}

#[test]
fn resize_cursors_follow_the_drag() {
    assert_eq!(dir_to_cursor(Direction::South), ResizeCursor::Vertical);
    assert_eq!(dir_to_cursor(Direction::North), ResizeCursor::Vertical);
    assert_eq!(dir_to_cursor(Direction::East), ResizeCursor::Horizontal);
    assert_eq!(dir_to_cursor(Direction::West), ResizeCursor::Horizontal);
    assert_eq!(dir_to_cursor(Direction::SouthEast), ResizeCursor::DiagonalDown);
    assert_eq!(dir_to_cursor(Direction::NorthWest), ResizeCursor::DiagonalDown);
    assert_eq!(dir_to_cursor(Direction::SouthWest), ResizeCursor::DiagonalUp);
    assert_eq!(dir_to_cursor(Direction::NorthEast), ResizeCursor::DiagonalUp);
}

// ---- bell ----

#[test]
fn blink_plays_out_in_five_steps() {
    let mut b = BellBlink::new();
    assert!(!b.ticking());
    assert!(!b.ring(BellType::Blink));
    assert_eq!(b, BellBlink { visible: false, remaining: 5 });
    let mut shown = Vec::new();
    while b.ticking() {
        b.tick();
        shown.push(b.visible);
    }
    assert_eq!(shown, vec![true, false, true, false, true]);
    assert_eq!(b, BellBlink::new());
    b.tick();
    assert_eq!(b, BellBlink::new());
}

#[test]
fn audio_and_silent_bells_leave_the_blink_alone() {
    let mut b = BellBlink::new();
    assert!(b.ring(BellType::Audio));
    assert_eq!(b, BellBlink::new());
    assert!(!b.ring(BellType::Off));
    assert_eq!(b, BellBlink::new());
    b.ring(BellType::Blink);
    b.tick();
    b.tick();
    assert!(b.ring(BellType::Audio));
    assert_eq!(b, BellBlink { visible: false, remaining: 3 });
    b.ring(BellType::Blink);
    assert_eq!(b, BellBlink { visible: false, remaining: 5 });
}

// ---- assistant banner ----

#[test]
fn diagnosis_banner_from_the_reply() {
    assert_eq!(
        diagnostic_banner(2, Ok("{...}".to_string()), Some((Some("missing file".to_string()), Some("touch a".to_string())))),
        (2, "missing file".to_string(), Some("touch a".to_string()))
    );
    assert_eq!(
        diagnostic_banner(2, Ok("{\"x\":1}".to_string()), Some((None, None))),
        (2, "{\"x\":1}".to_string(), None)
    );
    assert_eq!(diagnostic_banner(1, Ok("plain words".to_string()), None), (1, "plain words".to_string(), None));
    assert_eq!(diagnostic_banner(1, Err("timeout".to_string()), None), (1, "AI error: timeout".to_string(), None));
}

#[test]
fn there_is_always_a_shell_to_offer() {
    let none = GeneralConfig { editor: String::new(), bell: BellType::Off, shells: None };
    let empty = GeneralConfig { editor: String::new(), bell: BellType::Off, shells: Some(vec![]) };
    let listed = GeneralConfig { editor: String::new(), bell: BellType::Off, shells: Some(vec!["fish".to_string()]) };
    for (etc, env) in [
        (None, None),
        (Some("# nothing\n\n".to_string()), None),
        (Some("/bin/zsh\n".to_string()), Some("/bin/bash".to_string())),
        (None, Some("/usr/bin/fish".to_string())),
    ] {
        let detected = detect_shells(etc.clone(), env.clone());
        assert!(!detected.is_empty());
        assert!(!derive_available_shells(&none, detected.clone()).is_empty());
        assert_eq!(derive_available_shells(&empty, detected.clone()), detected);
        assert_eq!(derive_available_shells(&listed, detected), vec!["fish".to_string()]);
    }
}
