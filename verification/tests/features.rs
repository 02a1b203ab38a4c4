use nova::color::{ansi_bg, ansi_color, ansi_fg, color_256, rgb8};
use nova::grid::{Grid, Rgb};
use nova::kitty::{
    decode_kitty_image, image_from_raw, kitty_command, kitty_command_ok, parse_kitty_apc, place_image, split_apc, ApcState, PendingKittyImage,
};
use nova::osc::dir_from_url;
use nova::parser::AnsiExecutor;
use nova::select::{extract_selection, find_word_boundaries, get_display_row, normalize_sel, resolve_hovered_url};
use nova::settings_file::{
    apply_setting, config_set, config_view, format_value, get_nested, set_nested, setting_value, ConfigError, ConfigValue, SetError,
};
use nova::text::{chars_of, parse_i64_chars, replace_all_chars, trim_string};
use nova::url::detect_urls;
use nova::view::{compute_search_matches, compute_url_highlight};
use base64::Engine;
use vte::{Params, Parser, Perform};

struct Driver<'a, 'b> {
    exec: &'b mut AnsiExecutor<'a>,
}

impl<'a, 'b> Perform for Driver<'a, 'b> {
    fn print(&mut self, c: char) {
        assert!(self.exec.grid.print_allowed(c));
        self.exec.print(c);
    }

    fn execute(&mut self, byte: u8) {
        if (0x0A..=0x0C).contains(&byte) {
            assert!(self.exec.grid.newline_allowed());
        }
        self.exec.execute(byte);
    }

    fn csi_dispatch(&mut self, params: &Params, intermediates: &[u8], _ignore: bool, action: char) {
        let params: Vec<Vec<u16>> = params.iter().map(|p| p.to_vec()).collect();
        self.exec.csi_dispatch(&params, intermediates, action);
    }

    fn esc_dispatch(&mut self, _intermediates: &[u8], _ignore: bool, byte: u8) {
        self.exec.esc_dispatch(byte);
    }

    fn osc_dispatch(&mut self, params: &[&[u8]], _bell_terminated: bool) {
        let params: Vec<Vec<u8>> = params.iter().map(|p| p.to_vec()).collect();
        self.exec.osc_dispatch(&params);
    }
}

fn feed(grid: &mut Grid, s: &str) {
    let mut parser = Parser::new();
    let mut exec = AnsiExecutor { grid, bell_pending: false };
    let mut driver = Driver { exec: &mut exec };
    parser.advance(&mut driver, s.as_bytes());
}

fn grid_with(cols: usize, rows: usize, text: &str) -> Grid {
    let mut g = Grid::new(cols, rows);
    feed(&mut g, text);
    g
}

// ---- colours ----

#[test]
fn palette_colours() {
    assert_eq!(ansi_color(1, false), Rgb { r: 0xff, g: 0x5f, b: 0x57 });
    assert_eq!(ansi_fg(4, true), Rgb { r: 0xca, g: 0xe8, b: 0xff });
    assert_eq!(ansi_bg(9, false), Rgb { r: 0xff, g: 0xff, b: 0xff });
    assert_eq!(color_256(3), ansi_color(3, false));
    assert_eq!(color_256(9), ansi_color(1, true));
    assert_eq!(color_256(16), Rgb { r: 0, g: 0, b: 0 });
    assert_eq!(color_256(21), Rgb { r: 0, g: 0, b: 255 });
    assert_eq!(color_256(232), Rgb { r: 8, g: 8, b: 8 });
    assert_eq!(color_256(255), Rgb { r: 238, g: 238, b: 238 });
    assert_eq!(rgb8(1, 2, 3), Rgb { r: 1, g: 2, b: 3 });
}

// ---- text ----

#[test]
fn decimal_i64_parsing() {
    let p = |s: &str| parse_i64_chars(&chars_of(s));
    assert_eq!(p("42"), Some(42));
    assert_eq!(p("+7"), Some(7));
    assert_eq!(p("-9223372036854775808"), Some(i64::MIN));
    assert_eq!(p("9223372036854775807"), Some(i64::MAX));
    assert_eq!(p("9223372036854775808"), None);
    assert_eq!(p(""), None);
    assert_eq!(p("-"), None);
    assert_eq!(p("1 "), None);
}

#[test]
fn trimming_and_replacing() {
    assert_eq!(trim_string("  a b \n"), "a b");
    let out = replace_all_chars(&chars_of("a--b---c"), &chars_of("--"), &chars_of("+"));
    assert_eq!(out.iter().collect::<String>(), "a+b+-c");
}

// ---- OSC 7 ----

#[test]
fn working_directory_urls() {
    assert_eq!(dir_from_url("file://host/tmp/x").as_deref(), Some("/tmp/x"));
    assert_eq!(dir_from_url("file:///").as_deref(), Some("/"));
    assert_eq!(dir_from_url("file://host").as_deref(), None);
    assert_eq!(dir_from_url("ssh://server").as_deref(), Some("ssh:server"));
    assert_eq!(dir_from_url("ssh://").as_deref(), None);
    assert_eq!(dir_from_url("http://x/y").as_deref(), None);
}

// ---- kitty graphics ----

#[test]
fn apc_sequences_are_split_out() {
    let mut st = ApcState::Idle;
    let (out, apcs) = split_apc(&mut st, b"ab\x1b_Gq=2;xyz\x1b\\cd\x1b[1m");
    assert_eq!(out, b"abcd\x1b[1m".to_vec());
    assert_eq!(apcs, vec![b"Gq=2;xyz".to_vec()]);
    assert_eq!(st, ApcState::Idle);
    let (out1, apcs1) = split_apc(&mut st, b"a\x1b_G");
    assert_eq!(out1, b"a".to_vec());
    assert!(apcs1.is_empty());
    let (out2, apcs2) = split_apc(&mut st, b"x\x1b\\b");
    assert_eq!(out2, b"b".to_vec());
    assert_eq!(apcs2, vec![b"Gx".to_vec()]);
}

#[test]
fn graphics_command_keys() {
    let c = parse_kitty_apc(b"Ga=T,f=24,s=2,v=3,i=7,m=1,q=1;QUJD").unwrap();
    assert_eq!((c.action, c.format, c.width, c.height, c.id, c.more, c.quiet), (b'T', 24, 2, 3, 7, true, 1));
    assert_eq!(c.data, b"QUJD".to_vec());
    let d = parse_kitty_apc(b"Gzz=1,s=x").unwrap();
    assert_eq!((d.action, d.format, d.width), (b'T', 32, 0));
    assert!(parse_kitty_apc(b"Ga=T,t=f;AAAA").is_none());
    assert!(parse_kitty_apc(b"Xa=T").is_none());
}

#[test]
fn raw_images_decode() {
    let img = decode_kitty_image(&[], b"AAAA", 24, 1, 1).unwrap();
    assert_eq!(img, (vec![0, 0, 0, 255], 1, 1));
    let img = decode_kitty_image(&[b"AQID".to_vec()], b"BA==", 32, 1, 1).unwrap();
    assert_eq!(img, (vec![1, 2, 3, 4], 1, 1));
    assert!(decode_kitty_image(&[], b"AAAA", 32, 1, 1).is_none());
    assert!(decode_kitty_image(&[], b"AAAA", 24, 0, 1).is_none());
    assert!(decode_kitty_image(&[], b"!!", 24, 1, 1).is_none());
    let unpadded = decode_kitty_image(&[], b"AQIDBA", 32, 1, 1).unwrap();
    assert_eq!(unpadded, (vec![1, 2, 3, 4], 1, 1));
}

#[test]
fn png_images_decode() {
    let mut png = Vec::new();
    let pixels = image::RgbaImage::from_raw(2, 1, vec![1, 2, 3, 4, 5, 6, 7, 8]).unwrap();
    pixels.write_to(&mut std::io::Cursor::new(&mut png), image::ImageFormat::Png).unwrap();
    let b64 = base64::engine::general_purpose::STANDARD.encode(&png);
    let img = decode_kitty_image(&[], b64.as_bytes(), 100, 0, 0).unwrap();
    assert_eq!(img, (vec![1, 2, 3, 4, 5, 6, 7, 8], 2, 1));
}

#[test]
fn chunked_transmission_then_placement() {
    let mut grid = Grid::new(4, 3);
    let mut pending: Option<PendingKittyImage> = None;
    assert!(kitty_command(b"Ga=T,f=32,s=1,v=1,i=9,m=1;AAAA", &mut grid, &mut pending).is_none());
    assert!(pending.is_some());
    let img = kitty_command(b"Gm=0;AA==", &mut grid, &mut pending).unwrap();
    assert!(pending.is_none());
    assert_eq!((img.id, img.pixel_width, img.pixel_height), (9, 1, 1));
    assert_eq!(img.rgba, vec![0, 0, 0, 0]);
    place_image(&mut grid, img, 2);
    assert_eq!(grid.images.len(), 1);
    assert_eq!((grid.images[0].row, grid.images[0].col), (0, 0));
    assert_eq!((grid.cursor_x, grid.cursor_y), (0, 2));
    assert_eq!(grid.output_queue, vec![b"\x1b_Ga=T,i=9;OK\x1b\\".to_vec()]);
    assert!(kitty_command(b"Ga=d,i=9", &mut grid, &mut pending).is_none());
    assert!(grid.images.is_empty());
}

#[test]
fn oversized_raw_images_are_refused_before_decoding() {
    let pending = None;
    assert!(!kitty_command_ok(b"Ga=T,f=32,s=65536,v=65536;AAAA", &pending));
    assert!(kitty_command_ok(b"Ga=T,f=32,s=32768,v=32767;AAAA", &pending));
    assert!(!kitty_command_ok(b"Ga=T,f=32,s=65536,v=16384;AAAA", &pending));
    assert!(kitty_command_ok(b"Ga=T,f=24,s=65536,v=16384;AAAA", &pending));
    assert!(!kitty_command_ok(b"Ga=T,f=24,s=65536,v=21846;AAAA", &pending));
    assert!(kitty_command_ok(b"Ga=T,f=32,s=65536,v=16384,m=1;AAAA", &pending));
    assert!(kitty_command_ok(b"Ga=d", &pending));
    let big = Some(PendingKittyImage { format: 32, width: 65536, height: 65536, id: 0, chunks: vec![] });
    assert!(!kitty_command_ok(b"Gm=0;AA", &big));
}

#[test]
fn placement_scrolls_and_quiet_suppresses_reply() {
    let mut grid = Grid::new(4, 2);
    feed(&mut grid, "ab\r\ncd");
    let mut pending = None;
    let img = kitty_command(b"Ga=T,f=24,s=1,v=1,q=2;AAAA", &mut grid, &mut pending).unwrap();
    place_image(&mut grid, img, 3);
    assert_eq!(grid.cursor_y, 1);
    assert!(grid.output_queue.is_empty());
    assert_eq!(grid.images.len(), 1);
}

// ---- URLs, selection and search ----

#[test]
fn urls_in_a_row() {
    let grid = grid_with(24, 1, "see https://x.io/a ok");
    let urls = detect_urls(&grid.cells);
    assert_eq!(urls, vec![(4, 17, "https://x.io/a".to_string())]);
    let two = grid_with(30, 1, "http://a.b x https://c.d/e");
    assert_eq!(
        detect_urls(&two.cells),
        vec![(0, 9, "http://a.b".to_string()), (13, 25, "https://c.d/e".to_string())]
    );
    let none = grid_with(10, 1, "http:// x");
    assert!(detect_urls(&none.cells).is_empty());
}

#[test]
fn hovered_url_spans_wrapped_rows() {
    let grid = grid_with(12, 3, "go http://abcdefgh z");
    let (url, span) = resolve_hovered_url(&grid, 0, 5, 0);
    assert_eq!(url.as_deref(), Some("http://abcdefgh"));
    assert_eq!(span, Some((0, 3, 1)));
    let (url2, _) = resolve_hovered_url(&grid, 0, 2, 1);
    assert_eq!(url2.as_deref(), Some("http://abcdefgh"));
    let (none, none_span) = resolve_hovered_url(&grid, 0, 0, 2);
    assert_eq!((none, none_span), (None, None));
}

#[test]
fn url_highlight_marks_cells() {
    let grid = grid_with(12, 1, "a http://b c");
    let hl = compute_url_highlight(&grid.cells, 0, Some("http://b"), None);
    let expected: Vec<bool> = (0..12).map(|i| (2..=9).contains(&i)).collect();
    assert_eq!(hl, expected);
    assert!(compute_url_highlight(&grid.cells, 0, None, None).is_empty());
    let spanned = compute_url_highlight(&grid.cells, 0, Some("http://b"), Some((0, 4, 0)));
    let expected2: Vec<bool> = (0..12).map(|i| (4..=9).contains(&i)).collect();
    assert_eq!(spanned, expected2);
}

#[test]
fn selection_text_and_words() {
    let grid = grid_with(11, 2, "hello world\r\nfoo_bar x");
    assert_eq!(normalize_sel((5, 1), (1, 0)), ((1, 0), (5, 1)));
    assert_eq!(normalize_sel((1, 0), (5, 1)), ((1, 0), (5, 1)));
    assert_eq!(extract_selection(&grid, 0, (0, 0), (4, 0)), "hello");
    assert_eq!(extract_selection(&grid, 0, (6, 0), (2, 1)), "world\nfoo");
    assert_eq!(extract_selection(&grid, 0, (3, 0), (3, 0)), "");
    let row1: Vec<_> = grid.cells[11..22].iter().map(|c| c.duplicate()).collect();
    assert_eq!(find_word_boundaries(&row1, 2), (0, 6));
    assert_eq!(find_word_boundaries(&row1, 7), (7, 7));
}

#[test]
fn display_rows_with_scrollback() {
    let grid = grid_with(2, 2, "aa\r\nbb\r\ncc");
    let top = get_display_row(&grid, 1, 0).unwrap();
    assert_eq!(top[0].c, "a");
    let next = get_display_row(&grid, 1, 1).unwrap();
    assert_eq!(next[0].c, "b");
    assert!(get_display_row(&grid, 1, 3).is_none());
    assert_eq!(get_display_row(&grid, 0, 0).unwrap()[0].c, "b");
}

#[test]
fn search_matches_ignore_case() {
    let grid = grid_with(5, 2, "hello\r\nlOl");
    let m = compute_search_matches(&grid, "LO");
    assert_eq!(m, vec![(false, 0, 3, 5), (false, 1, 0, 2)]);
    assert!(compute_search_matches(&grid, "").is_empty());
}

// ---- settings file ----

fn doc() -> ConfigValue {
    ConfigValue::Table(vec![(
        "general".to_string(),
        ConfigValue::Table(vec![
            ("editor".to_string(), ConfigValue::Text("vim".to_string())),
            ("tabs".to_string(), ConfigValue::Integer(4)),
            ("beep".to_string(), ConfigValue::Boolean(true)),
            ("scale".to_string(), ConfigValue::Float("1".to_string())),
        ]),
    )])
}

#[test]
fn settings_lookup_by_dotted_key() {
    let d = doc();
    assert_eq!(get_nested(&d, "general.tabs"), Some(&ConfigValue::Integer(4)));
    assert_eq!(get_nested(&d, "general.nope"), None);
    assert_eq!(get_nested(&d, "general.tabs.x"), None);
    assert!(matches!(get_nested(&d, "general"), Some(ConfigValue::Table(_))));
}

#[test]
fn settings_set_then_get() {
    let mut d = doc();
    assert!(set_nested(&mut d, "general.font", ConfigValue::Text("mono".to_string())));
    assert_eq!(get_nested(&d, "general.font"), Some(&ConfigValue::Text("mono".to_string())));
    assert!(set_nested(&mut d, "general.tabs", ConfigValue::Integer(2)));
    assert_eq!(get_nested(&d, "general.tabs"), Some(&ConfigValue::Integer(2)));
    let before = doc();
    let mut e = doc();
    assert!(!set_nested(&mut e, "missing.key", ConfigValue::Integer(1)));
    assert!(!set_nested(&mut e, "general.tabs.deeper", ConfigValue::Integer(1)));
    assert_eq!(e, before);
}

#[test]
fn settings_values_from_text() {
    let b = ConfigValue::Boolean(false);
    assert_eq!(setting_value(Some(&b), "true", None), Ok(ConfigValue::Boolean(true)));
    assert_eq!(setting_value(Some(&b), "yes", None), Err(SetError::ExpectedBoolean));
    let i = ConfigValue::Integer(0);
    assert_eq!(setting_value(Some(&i), "-12", None), Ok(ConfigValue::Integer(-12)));
    assert_eq!(setting_value(Some(&i), "1.5", None), Err(SetError::ExpectedInteger));
    let f = ConfigValue::Float("0".to_string());
    assert_eq!(setting_value(Some(&f), "2.50", Some(2.5f64.to_string())), Ok(ConfigValue::Float("2.5".to_string())));
    assert_eq!(setting_value(Some(&f), "x", None), Err(SetError::ExpectedFloat));
    let t = ConfigValue::Text(String::new());
    assert_eq!(setting_value(Some(&t), "42", None), Ok(ConfigValue::Text("42".to_string())));
    assert_eq!(setting_value(None, "42", None), Err(SetError::KeyNotFound));
}

#[test]
fn settings_apply_changes_file_value() {
    let mut d = doc();
    assert_eq!(apply_setting(&mut d, "general.tabs", "8", None), Ok(()));
    assert_eq!(get_nested(&d, "general.tabs"), Some(&ConfigValue::Integer(8)));
    assert_eq!(apply_setting(&mut d, "general.beep", "false", None), Ok(()));
    assert_eq!(get_nested(&d, "general.beep"), Some(&ConfigValue::Boolean(false)));
    let before = format!("{:?}", d);
    assert_eq!(apply_setting(&mut d, "general.tabs", "eight", None), Err(SetError::ExpectedInteger));
    assert_eq!(apply_setting(&mut d, "general.color", "red", None), Err(SetError::KeyNotFound));
    assert_eq!(format!("{:?}", d), before);
}

const SETTINGS: &str = "[general]\neditor = \"vim\"\ntabs = 4\nbeep = true\nscale = 1.5\nshells = [\"zsh\", \"bash\"]\n";

#[test]
fn config_view_shows_values_by_key() {
    assert_eq!(config_view(SETTINGS, Some("general.editor")), Ok("vim".to_string()));
    assert_eq!(config_view(SETTINGS, Some("general.tabs")), Ok("4".to_string()));
    assert_eq!(config_view(SETTINGS, Some("general.beep")), Ok("true".to_string()));
    assert_eq!(config_view(SETTINGS, Some("general.scale")), Ok("1.5".to_string()));
    assert_eq!(config_view(SETTINGS, Some("general.missing")), Err(ConfigError::Value(SetError::KeyNotFound)));
    assert!(matches!(config_view("[general\n", None), Err(ConfigError::Parse(_))));
}

#[test]
fn config_view_renders_the_whole_document() {
    let out = config_view("[general]\ntabs = 4\n", None).unwrap();
    assert_eq!(out, "[general]\ntabs = 4\n");
}

#[test]
fn config_set_rewrites_the_document() {
    let out = config_set("[general]\ntabs = 4\n", "general.tabs", "8", None).unwrap();
    assert_eq!(out, "[general]\ntabs = 8\n");
    let out = config_set(SETTINGS, "general.scale", "2.25", Some(2.25f64.to_string())).unwrap();
    assert_eq!(config_view(&out, Some("general.scale")), Ok("2.25".to_string()));
    assert_eq!(config_view(&out, Some("general.editor")), Ok("vim".to_string()));
    let out = config_set(SETTINGS, "general.editor", "nano", None).unwrap();
    assert_eq!(config_view(&out, Some("general.editor")), Ok("nano".to_string()));
    assert_eq!(config_set(SETTINGS, "general.tabs", "four", None), Err(ConfigError::Value(SetError::ExpectedInteger)));
    assert_eq!(config_set(SETTINGS, "general.beep", "yes", None), Err(ConfigError::Value(SetError::ExpectedBoolean)));
    assert_eq!(config_set(SETTINGS, "general.scale", "x", None), Err(ConfigError::Value(SetError::ExpectedFloat)));
    assert_eq!(config_set(SETTINGS, "general.nope", "1", None), Err(ConfigError::Value(SetError::KeyNotFound)));
    assert!(matches!(config_set("tabs = ", "tabs", "1", None), Err(ConfigError::Parse(_))));
}

#[test]
fn config_values_are_shown_as_written() {
    assert_eq!(format_value(&ConfigValue::Integer(-42)), "-42");
    assert_eq!(format_value(&ConfigValue::Integer(i64::MIN)), "-9223372036854775808");
    assert_eq!(format_value(&ConfigValue::Boolean(false)), "false");
    assert_eq!(format_value(&ConfigValue::Text("x y".to_string())), "x y");
}

#[test]
fn apc_ended_by_the_eight_bit_terminator_is_taken_whole() {
    let mut st = ApcState::Idle;
    let (out, apcs) = split_apc(&mut st, b"\x1b_Gq=2;xyz\x9cQ");
    assert_eq!(out, b"Q".to_vec());
    assert_eq!(apcs, vec![b"Gq=2;xyz".to_vec()]);
    let mut st = ApcState::Idle;
    for &b in b"\x1b_abc" {
        assert_eq!(st.advance(b), (Vec::new(), None));
    }
    assert_eq!(st.advance(0x9c), (Vec::new(), Some(b"abc".to_vec())));
    assert_eq!(st.advance(b'z'), (vec![b'z'], None));
}

#[test]
fn raw_images_from_decoded_payloads() {
    assert_eq!(image_from_raw(vec![1, 2, 3, 4], 32, 1, 1), Some((vec![1, 2, 3, 4], 1, 1)));
    assert_eq!(image_from_raw(vec![1, 2, 3], 32, 1, 1), None);
    assert_eq!(image_from_raw(vec![1, 2, 3, 4, 5, 6], 24, 2, 1), Some((vec![1, 2, 3, 255, 4, 5, 6, 255], 2, 1)));
    assert_eq!(image_from_raw(vec![1, 2, 3], 24, 0, 1), None);
    assert_eq!(image_from_raw(vec![0, 1], 100, 0, 0), None);
    assert_eq!(image_from_raw(vec![1, 2, 3, 4], 7, 1, 1), None);
}

#[test]
fn default_settings_read_back() {
    let text = nova::config::default_config_str();
    assert_eq!(config_view(text, Some("general.bell")), Ok("blink".to_string()));
    assert_eq!(config_view(text, Some("theme.font.size")), Ok("14".to_string()));
    assert_eq!(config_view(text, Some("keybindings.new-tab")), Ok("ctrl+shift+t".to_string()));
    for key in ["background", "foreground", "accent", "foreground-muted", "border", "cursor"] {
        let v = config_view(text, Some(&format!("theme.colors.{key}"))).unwrap();
        assert!(nova::config::parse_hex_color(&v).is_ok(), "{key}");
    }
    let kb = nova::config::KeybindingsConfig {
        new_tab: "ctrl+shift+t".to_string(),
        close_tab: "ctrl+shift+w".to_string(),
        next_tab: "ctrl+tab".to_string(),
        prev_tab: "ctrl+shift+tab".to_string(),
        paste: "ctrl+shift+v".to_string(),
        copy: "ctrl+shift+c".to_string(),
    };
    assert!(nova::config::build_parsed_keybindings(&kb).is_ok());
}

#[test]
fn windows_shells_and_directories() {
    assert_eq!(nova::config::detect_windows_shells(true), vec!["powershell", "pwsh", "cmd"]);
    assert_eq!(nova::config::detect_windows_shells(false), vec!["powershell", "cmd"]);
    assert_eq!(nova::osc::windows_dir("/C:/Users/me"), "C:\\Users\\me");
    assert_eq!(nova::osc::windows_dir("ssh:host"), "ssh:host");
    assert_eq!(nova::osc::windows_dir("/"), "");
}
