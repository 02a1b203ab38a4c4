use nova::ai::{
    anthropic_base_url, build_system_prompt, build_user_message, extract_last_output, openai_base_url, parse_segments,
    query_error, strip_markdown, AiProvider, AiQuery, Segment,
};
use nova::cli::{ask_bytes, command_from_args, CliCommand};
use nova::config::{
    accent_rgb, build_parsed_keybindings, derive_available_shells, detect_shells, parse_hex_color, parse_keybinding,
    BellType, ConfigStore, GeneralConfig, HexColorError, KeyId, KeybindingsConfig, ParsedKeybinding, Rgba8,
};
use nova::grid::Grid;
use nova::keys::{
    handle_key_pressed, keybinding_to_string, kitty_mod_bits, named_key_sequence, KeyAction, KeyContext, KeyInput,
    Modifiers, NamedKey,
};
use nova::palette::{command_id, command_label, filtered, fuzzy, palette_command_id_at, palette_filtered_count};
use nova::pty::build_shell_command;
use nova::session::{
    ai_opening_input, completion_notification, summarize_controls, track_typed_input, InputEffect,
};
use nova::grid::ControlCommand;
use nova::status::{branch_from_head, format_elapsed, shell_display_name, status_items, FontFamily};
use nova::view::{in_selection, mouse_event_bytes, MouseButton};

fn strings(v: &[&str]) -> Vec<String> {
    v.iter().map(|s| s.to_string()).collect()
}

fn no_mods() -> Modifiers {
    Modifiers { shift: false, control: false, alt: false, logo: false }
}

fn ctrl() -> Modifiers {
    Modifiers { control: true, ..no_mods() }
}

fn ctrl_shift() -> Modifiers {
    Modifiers { control: true, shift: true, ..no_mods() }
}

fn chr(s: &str) -> KeyInput {
    KeyInput::Character(s.to_string())
}

fn default_kb_config() -> KeybindingsConfig {
    KeybindingsConfig {
        new_tab: "ctrl+shift+t".to_string(),
        close_tab: "ctrl+shift+w".to_string(),
        next_tab: "ctrl+tab".to_string(),
        prev_tab: "ctrl+shift+tab".to_string(),
        paste: "ctrl+shift+v".to_string(),
        copy: "ctrl+shift+c".to_string(),
    }
}

fn idle() -> KeyContext {
    KeyContext {
        recording_kb: false,
        settings_open: false,
        ai_open: false,
        palette_open: false,
        search_open: false,
        kitty_flags: 0,
    }
}

// ---- command line ----

#[test]
fn cli_subcommands() {
    assert_eq!(command_from_args(&strings(&["nova"])), CliCommand::Gui);
    assert_eq!(command_from_args(&strings(&["nova", "-h"])), CliCommand::Help);
    assert_eq!(command_from_args(&strings(&["nova", "--version"])), CliCommand::Version);
    assert_eq!(
        command_from_args(&strings(&["nova", "ask", "why", "now"])),
        CliCommand::Ask(strings(&["why", "now"]))
    );
    assert_eq!(
        command_from_args(&strings(&["nova", "config", "view"])),
        CliCommand::Config(strings(&["view"]))
    );
    assert_eq!(command_from_args(&strings(&["nova", "explain"])), CliCommand::Explain(vec![]));
    assert_eq!(command_from_args(&strings(&["nova", "bogus"])), CliCommand::Unknown("bogus".to_string()));
}

#[test]
fn ask_sequence_encodes_question() {
    assert_eq!(ask_bytes(&strings(&["hi", "there"])), b"\x1b]777;ask_ai;aGkgdGhlcmU=\x07".to_vec());
    assert_eq!(ask_bytes(&strings(&["  "])), b"\x1b]777;ask_ai\x07".to_vec());
    assert_eq!(ask_bytes(&vec![]), b"\x1b]777;ask_ai\x07".to_vec());
}

// ---- status bar ----

#[test]
fn elapsed_time_formats() {
    assert_eq!(format_elapsed(0, 250), "250ms");
    assert_eq!(format_elapsed(5, 999), "5s");
    assert_eq!(format_elapsed(125, 0), "2m 5s");
    assert_eq!(format_elapsed(3725, 0), "1h 2m");
}

#[test]
fn shell_names_and_branches() {
    assert_eq!(shell_display_name("/usr/bin/zsh"), "zsh");
    assert_eq!(shell_display_name("fish"), "fish");
    assert_eq!(branch_from_head("ref: refs/heads/main\n"), "main");
    assert_eq!(branch_from_head("0123456789abcdef\n"), "0123456");
    assert_eq!(branch_from_head("abc"), "abc");
}

#[test]
fn font_family_store() {
    let mut f = FontFamily::new();
    f.set_family("Fira Code");
    assert_eq!(f.get_family(), "Fira Code");
}

// ---- assistant ----

#[test]
fn assistant_prompts() {
    let p = build_system_prompt("linux", "bash");
    assert!(p.starts_with("You are a helpful terminal assistant. OS: linux. Shell: bash.\n"));
    assert!(p.ends_with("Never include commands outside of code blocks."));
    assert_eq!(build_user_message("", "why?"), "why?");
    assert_eq!(build_user_message("ls: oops", "why?"), "Context:\nls: oops\n\nQuestion: why?");
}

#[test]
fn assistant_query_needs_key_and_base_urls() {
    let mut q = AiQuery {
        question: "q".to_string(),
        context: String::new(),
        provider: AiProvider::OpenAi,
        model: "m".to_string(),
        api_key: String::new(),
        base_url: None,
        shell: "bash".to_string(),
        os: "linux".to_string(),
    };
    assert_eq!(query_error(&q).as_deref(), Some("No API key configured. Add one in Settings → AI."));
    q.api_key = "k".to_string();
    assert_eq!(query_error(&q), None);
    assert_eq!(openai_base_url(&None), "https://api.openai.com/v1/");
    assert_eq!(openai_base_url(&Some("http://localhost:8080/v1".to_string())), "http://localhost:8080/v1/");
    assert_eq!(anthropic_base_url(&None), "https://api.anthropic.com");
    assert_eq!(anthropic_base_url(&Some("http://x".to_string())), "http://x");
}

#[test]
fn markdown_is_flattened() {
    assert_eq!(strip_markdown("**Bold** and `code`\n\n  _x_ __y__  "), "Bold and code _x_ y");
    assert_eq!(strip_markdown("```\nls\n```"), "ls");
}

#[test]
fn answer_segments() {
    let segs = parse_segments("Run this:\n```bash\nls -la\n```\nDone.");
    assert_eq!(
        segs,
        vec![
            Segment::Text("Run this:".to_string()),
            Segment::Code { lang: "bash".to_string(), content: "ls -la".to_string() },
            Segment::Text("Done.".to_string()),
        ]
    );
    let open = parse_segments("```sh\necho hi");
    assert_eq!(open, vec![Segment::Code { lang: "sh".to_string(), content: "echo hi".to_string() }]);
    assert_eq!(parse_segments("   "), vec![]);
}

#[test]
fn last_output_below_prompt() {
    let mut grid = Grid::new(6, 4);
    let rows = ["λ ls  ", "a.txt ", "      ", "λ     "];
    for (r, text) in rows.iter().enumerate() {
        for (c, ch) in text.chars().enumerate() {
            grid.cells[r * 6 + c].c = ch.to_string();
        }
    }
    assert_eq!(extract_last_output(&grid), "");
    grid.cells[3 * 6].c = " ".to_string();
    assert_eq!(extract_last_output(&grid), "a.txt");
    let empty = Grid::new(3, 2);
    assert_eq!(extract_last_output(&empty), "");
}

// ---- settings ----

#[test]
fn keybinding_strings_parse() {
    assert_eq!(
        parse_keybinding("Ctrl+Shift+T"),
        Ok(ParsedKeybinding { ctrl: true, shift: true, alt: false, meta: false, key: KeyId::Char('t') })
    );
    assert_eq!(
        parse_keybinding("cmd+tab"),
        Ok(ParsedKeybinding { ctrl: false, shift: false, alt: false, meta: true, key: KeyId::Tab })
    );
    assert_eq!(
        parse_keybinding("option+x"),
        Ok(ParsedKeybinding { ctrl: false, shift: false, alt: true, meta: false, key: KeyId::Char('x') })
    );
    let err = parse_keybinding("ctrl+enter").unwrap_err();
    assert_eq!(err.key, "enter");
    assert_eq!(parse_keybinding("ctrl").unwrap_err().key, "");
}

#[test]
fn keybinding_config_errors_name_the_binding() {
    let mut c = default_kb_config();
    assert!(build_parsed_keybindings(&c).is_ok());
    c.paste = "ctrl+shift+insert".to_string();
    let e = build_parsed_keybindings(&c).unwrap_err();
    assert_eq!(e.name, "paste");
    assert_eq!(e.error.key, "insert");
}

#[test]
fn config_store_keeps_first_settings() {
    let mut store = ConfigStore::new();
    let general = GeneralConfig { editor: "vim".to_string(), bell: BellType::Blink, shells: None };
    assert!(store.init(general, &default_kb_config()).is_ok());
    let kb = *store.keybindings();
    assert_eq!(kb.new_tab.key, KeyId::Char('t'));
    let mut other = default_kb_config();
    other.new_tab = "ctrl+n".to_string();
    let general2 = GeneralConfig { editor: "nano".to_string(), bell: BellType::Off, shells: None };
    assert!(store.init(general2, &other).is_ok());
    assert_eq!(store.keybindings().new_tab.key, KeyId::Char('t'));
    assert_eq!(store.general.as_ref().unwrap().editor, "vim");
    assert!(store.reload_parsed_keybindings(&other).is_ok());
    assert_eq!(store.keybindings().new_tab.key, KeyId::Char('n'));
    other.copy = "ctrl+f1".to_string();
    assert!(store.reload_parsed_keybindings(&other).is_err());
    assert_eq!(store.keybindings().new_tab.key, KeyId::Char('n'));
}

#[test]
fn bell_labels() {
    assert_eq!(BellType::Off.label(), "None");
    assert_eq!(BellType::Audio.label(), "Audio");
    assert_eq!(BellType::Blink.label(), "Blink");
}

#[test]
fn shells_offered() {
    let detected = strings(&["/bin/bash", "/bin/zsh"]);
    let general = GeneralConfig { editor: String::new(), bell: BellType::Off, shells: Some(strings(&["/bin/fish"])) };
    assert_eq!(derive_available_shells(&general, detected.clone()), strings(&["/bin/fish"]));
    let general = GeneralConfig { editor: String::new(), bell: BellType::Off, shells: Some(vec![]) };
    assert_eq!(derive_available_shells(&general, detected.clone()), detected);
    assert_eq!(
        detect_shells(Some("# shells\n/bin/sh\n\n  /bin/zsh  \r\n".to_string()), None),
        strings(&["/bin/sh", "/bin/zsh"])
    );
    assert_eq!(detect_shells(Some("# none\n".to_string()), Some("/bin/ksh".to_string())), strings(&["/bin/ksh"]));
    assert_eq!(detect_shells(None, None), strings(&["bash"]));
}

#[test]
fn hex_colors() {
    assert_eq!(parse_hex_color("#ff8000"), Ok(Rgba8 { r: 255, g: 128, b: 0, a: 255 }));
    assert_eq!(parse_hex_color("##10203040"), Ok(Rgba8 { r: 16, g: 32, b: 48, a: 64 }));
    assert_eq!(parse_hex_color("#12345"), Err(HexColorError::BadLength));
    assert_eq!(parse_hex_color("#zz0000"), Err(HexColorError::BadComponent));
    assert_eq!(accent_rgb("#0a0b0c"), (10, 11, 12));
    assert_eq!(accent_rgb("#abc"), (123, 147, 253));
    assert_eq!(accent_rgb("#xx0b0c"), (123, 11, 12));
}

// ---- keyboard ----

#[test]
fn named_keys_send_sequences() {
    assert_eq!(named_key_sequence(NamedKey::Enter, no_mods(), 0), Some(vec![0x0d]));
    assert_eq!(named_key_sequence(NamedKey::ArrowUp, no_mods(), 0), Some(b"\x1b[A".to_vec()));
    assert_eq!(named_key_sequence(NamedKey::Tab, Modifiers { shift: true, ..no_mods() }, 0), Some(b"\x1b[Z".to_vec()));
    assert_eq!(named_key_sequence(NamedKey::F1, no_mods(), 0), Some(b"\x1bOP".to_vec()));
    assert_eq!(named_key_sequence(NamedKey::F5, ctrl(), 0), Some(b"\x1b[15;5~".to_vec()));
    assert_eq!(named_key_sequence(NamedKey::Enter, ctrl(), 1), Some(b"\x1b[13;5u".to_vec()));
    assert_eq!(named_key_sequence(NamedKey::Escape, no_mods(), 1), Some(b"\x1b[27u".to_vec()));
    assert_eq!(named_key_sequence(NamedKey::ArrowLeft, Modifiers { alt: true, ..no_mods() }, 0), Some(vec![0x01]));
    assert_eq!(named_key_sequence(NamedKey::Other, no_mods(), 0), None);
    assert_eq!(kitty_mod_bits(Modifiers { shift: true, control: true, alt: true, logo: true }), 15);
}

#[test]
fn key_presses_map_to_actions() {
    let kb = build_parsed_keybindings(&default_kb_config()).unwrap();
    let palette = parse_keybinding("ctrl+shift+p").unwrap();
    let act = |cx: &KeyContext, key: KeyInput, m: Modifiers| handle_key_pressed(cx, &key, m, &key, &kb, &palette);
    assert_eq!(act(&idle(), chr("t"), ctrl_shift()), Some(KeyAction::SplitPane));
    assert_eq!(act(&idle(), chr("="), ctrl()), Some(KeyAction::FontSizeUp));
    assert_eq!(act(&idle(), chr("f"), ctrl()), Some(KeyAction::SearchOpen));
    assert_eq!(act(&idle(), KeyInput::Named(NamedKey::Tab), ctrl()), Some(KeyAction::NextTab));
    assert_eq!(act(&idle(), chr("v"), ctrl_shift()), Some(KeyAction::PasteRequested));
    assert_eq!(act(&idle(), chr("p"), ctrl_shift()), Some(KeyAction::OpenCommandPalette));
    assert_eq!(act(&idle(), chr("c"), ctrl()), Some(KeyAction::Type(vec![0x03])));
    assert_eq!(act(&idle(), chr("a"), no_mods()), Some(KeyAction::Type(b"a".to_vec())));
    assert_eq!(act(&idle(), chr("'"), Modifiers { shift: true, ..no_mods() }), Some(KeyAction::Type(b"\"".to_vec())));
    let search = KeyContext { search_open: true, ..idle() };
    assert_eq!(act(&search, KeyInput::Named(NamedKey::Enter), Modifiers { shift: true, ..no_mods() }), Some(KeyAction::SearchPrev));
    assert_eq!(act(&search, chr("x"), no_mods()), None);
    let pal = KeyContext { palette_open: true, ..idle() };
    assert_eq!(act(&pal, KeyInput::Named(NamedKey::ArrowUp), no_mods()), Some(KeyAction::PaletteNavigate(-1)));
    let rec = KeyContext { recording_kb: true, settings_open: true, ..idle() };
    assert_eq!(act(&rec, chr("q"), ctrl()), Some(KeyAction::SettingsRecordKb));
    assert_eq!(act(&rec, KeyInput::Named(NamedKey::Escape), no_mods()), Some(KeyAction::SettingsCancelRecordKb));
}

#[test]
fn recorded_keybinding_round_trips() {
    let m = ctrl_shift();
    let s = keybinding_to_string(&chr("K"), m).unwrap();
    assert_eq!(s, "ctrl+shift+k");
    let parsed = parse_keybinding(&s).unwrap();
    assert_eq!(parsed, ParsedKeybinding { ctrl: true, shift: true, alt: false, meta: false, key: KeyId::Char('k') });
    assert_eq!(keybinding_to_string(&KeyInput::Named(NamedKey::Tab), ctrl()).as_deref(), Some("ctrl+tab"));
    assert_eq!(keybinding_to_string(&KeyInput::Named(NamedKey::Enter), ctrl()), None);
}

// ---- command palette ----

#[test]
fn palette_filtering() {
    assert!(fuzzy("", "anything"));
    assert!(fuzzy("nt", "New Tab"));
    assert!(fuzzy("EXPL", "Explain Error"));
    assert!(!fuzzy("tn", "New"));
    assert_eq!(command_label(0), "Ask AI");
    assert_eq!(command_id(3), "settings");
    assert_eq!(filtered(""), vec![0, 1, 2, 3]);
    assert_eq!(filtered("ai"), vec![0, 1]);
    assert_eq!(palette_filtered_count("set"), 1);
    assert_eq!(palette_command_id_at("e", 1), Some("new_tab"));
    assert_eq!(palette_command_id_at("zzz", 0), None);
}

// ---- session ----

#[test]
fn control_requests_are_summarised() {
    let queue = vec![
        ControlCommand::SetClipboard("a".to_string()),
        ControlCommand::SetClipboard("b".to_string()),
        ControlCommand::OpenAskAi { preset: Some("  ".to_string()) },
        ControlCommand::CommandFailure(127),
        ControlCommand::CommandComplete(0),
    ];
    let s = summarize_controls(&queue, true, true);
    assert_eq!(s.clipboard_write.as_deref(), Some("b"));
    assert!(s.open_ask_ai);
    assert_eq!(s.ai_preset, None);
    assert_eq!(s.diagnostic, Some(127));
    assert!(s.command_completed);
    assert!(!s.request_clipboard);
    let s = summarize_controls(&vec![ControlCommand::CommandFailure(130)], true, true);
    assert_eq!(s.diagnostic, None);
    let s = summarize_controls(&vec![ControlCommand::CommandFailure(1)], true, false);
    assert_eq!(s.diagnostic, None);
}

#[test]
fn opening_questions_and_notifications() {
    assert_eq!(ai_opening_input(true, None), "Explain any errors in the terminal output above.");
    assert_eq!(ai_opening_input(false, None), "");
    assert_eq!(ai_opening_input(false, Some("x".to_string())), "x");
    assert_eq!(completion_notification(9, false, false), None);
    assert_eq!(completion_notification(12, true, true), None);
    assert_eq!(completion_notification(12, false, true).as_deref(), Some("Finished in 12s"));
    assert_eq!(completion_notification(75, true, false).as_deref(), Some("Finished in 1m 15s"));
}

#[test]
fn typed_line_tracking() {
    let mut line = String::new();
    assert_eq!(track_typed_input(&mut line, b"l"), (InputEffect::Typed, None));
    assert_eq!(track_typed_input(&mut line, b"s"), (InputEffect::Typed, None));
    assert_eq!(track_typed_input(&mut line, b"x"), (InputEffect::Typed, None));
    assert_eq!(track_typed_input(&mut line, &[0x7f]), (InputEffect::Erased, None));
    assert_eq!(track_typed_input(&mut line, b"\r"), (InputEffect::Submitted, Some("ls".to_string())));
    assert_eq!(line, "");
    assert_eq!(track_typed_input(&mut line, b"\r"), (InputEffect::Unchanged, None));
    track_typed_input(&mut line, b"a");
    assert_eq!(track_typed_input(&mut line, b"\x1b[A"), (InputEffect::Unchanged, None));
    assert_eq!(line, "a");
    assert_eq!(track_typed_input(&mut line, b"\x1bA"), (InputEffect::Cleared, None));
    assert_eq!(line, "");
    track_typed_input(&mut line, b"b");
    assert_eq!(track_typed_input(&mut line, &[0x01]), (InputEffect::Cleared, None));
    assert_eq!(line, "");
}

#[test]
fn typed_printable_line_is_submitted_whole() {
    let mut line = String::new();
    for b in b"git status" {
        assert_eq!(track_typed_input(&mut line, &[*b]), (InputEffect::Typed, None));
    }
    assert_eq!(line, "git status");
    assert_eq!(track_typed_input(&mut line, b"\r"), (InputEffect::Submitted, Some("git status".to_string())));
    assert_eq!(line, "");
}

// ---- shell start ----

#[test]
fn shell_commands() {
    let c = build_shell_command("/bin/bash", Some("/home/me".to_string()), "#102030");
    assert_eq!(c.program, "/bin/bash");
    assert_eq!(c.args, strings(&["--login", "-i"]));
    assert_eq!(c.cwd.as_deref(), Some("/home/me"));
    let ps1 = c.env.iter().find(|(k, _)| k == "PS1").map(|(_, v)| v.clone()).unwrap();
    assert_eq!(ps1, "\\[\\e[38;2;128;128;128m\\]\\w\\[\\e[0m\\] \\[\\e[38;2;16;32;48m\\]λ\\[\\e[0m\\] ");
    assert!(c.env.iter().any(|(k, v)| k == "NOVA_TERMINAL" && v == "1"));
    assert!(c.env.iter().any(|(k, _)| k == "PROMPT_COMMAND"));
    let f = build_shell_command("/usr/bin/fish", None, "#102030");
    assert_eq!(f.args, strings(&["-l"]));
    assert!(!f.env.iter().any(|(k, _)| k == "PS1"));
    let z = build_shell_command("zsh", None, "#102030");
    assert_eq!(z.args, strings(&["-l", "-i"]));
}

// ---- mouse and selection display ----

#[test]
fn mouse_reports() {
    assert_eq!(
        mouse_event_bytes(Some(MouseButton::Left), true, false, false, false, false, true, 4, 9),
        Some(b"\x1b[<0;5;10M".to_vec())
    );
    assert_eq!(
        mouse_event_bytes(Some(MouseButton::Right), false, false, true, false, true, true, 0, 0),
        Some(b"\x1b[<22;1;1m".to_vec())
    );
    assert_eq!(
        mouse_event_bytes(Some(MouseButton::Left), true, false, false, false, false, false, 1, 2),
        Some(vec![0x1b, b'[', b'M', 32, 34, 35])
    );
    assert_eq!(
        mouse_event_bytes(None, true, true, false, false, false, false, 300, 0),
        Some(vec![0x1b, b'[', b'M', 67, 255, 33])
    );
    assert_eq!(mouse_event_bytes(Some(MouseButton::Other), true, false, false, false, false, true, 0, 0), None);
}

#[test]
fn selection_membership() {
    let sel = Some((3, 1, 2, 3));
    assert!(in_selection(3, 1, sel));
    assert!(!in_selection(2, 1, sel));
    assert!(in_selection(0, 2, sel));
    assert!(in_selection(2, 3, sel));
    assert!(!in_selection(3, 3, sel));
    assert!(!in_selection(0, 0, None));
}

#[test]
fn status_bar_items() {
    assert_eq!(
        status_items(Some("main"), "zsh", Some((125, 0))),
        vec![(" main".to_string(), true), ("zsh".to_string(), false), ("utf-8".to_string(), false), ("2m 5s".to_string(), false)]
    );
    assert_eq!(
        status_items(Some(""), "bash", None),
        vec![("bash".to_string(), false), ("utf-8".to_string(), false)]
    );
    assert_eq!(status_items(None, "fish", Some((0, 40))).last().unwrap().0, "40ms");
}

#[test]
fn longer_queries_match_fewer_commands() {
    assert_eq!(palette_filtered_count(""), 4);
    assert_eq!(palette_command_id_at("", 0), Some("ask_ai"));
    assert_eq!(palette_command_id_at("", 1), Some("explain_error"));
    assert_eq!(palette_command_id_at("", 2), Some("new_tab"));
    assert_eq!(palette_command_id_at("", 3), Some("settings"));
    assert_eq!(palette_command_id_at("", 4), None);
    assert_eq!(palette_command_id_at("ex", 0), Some("explain_error"));
    assert_eq!(palette_command_id_at("ex", 1), None);
    let queries = ["", "e", "ex", "exp", "s", "se", "set", "n", "nt", "a", "ai", "zz"];
    for q in queries {
        for extra in ["", "e", "r", "t", "ab"] {
            let longer = format!("{q}{extra}");
            assert!(palette_filtered_count(&longer) <= palette_filtered_count(q));
        }
        assert_eq!(palette_filtered_count(q), palette_filtered_count(&q.to_ascii_uppercase()));
        assert_eq!(filtered(q), filtered(&q.to_ascii_uppercase()));
    }
}
