//! Keyboard input: what a key press does in the user interface, and the bytes it sends to
//! the shell (legacy encoding or the kitty keyboard protocol).
use vstd::prelude::*;
use vstd::utf8::encode_utf8;
use crate::config::{lower_char, KeyId, ParsedKeybinding, ParsedKeybindings};
use crate::text::{decimal, push_decimal};

verus! {

/// Named keys the terminal handles.
#[derive(Clone, Copy, Debug, PartialEq, Eq, Structural)]
pub enum NamedKey {
    Enter,
    Backspace,
    Tab,
    Space,
    Escape,
    ArrowUp,
    ArrowDown,
    ArrowLeft,
    ArrowRight,
    Delete,
    Insert,
    Home,
    End,
    PageUp,
    PageDown,
    F1,
    F2,
    F3,
    F4,
    F5,
    F6,
    F7,
    F8,
    F9,
    F10,
    F11,
    F12,
    Other,
}

/// A key as the windowing system reports it.
pub enum KeyInput {
    Named(NamedKey),
    Character(String),
    Unidentified,
}

pub ghost enum KeyView {
    Named(NamedKey),
    Character(Seq<char>),
    Unidentified,
}

impl View for KeyInput {
    type V = KeyView;

    open spec fn view(&self) -> KeyView {
        match self {
            KeyInput::Named(n) => KeyView::Named(*n),
            KeyInput::Character(s) => KeyView::Character(s@),
            KeyInput::Unidentified => KeyView::Unidentified,
        }
    }
}

/// Modifier keys held.
#[derive(Clone, Copy, Debug, PartialEq, Eq, Structural)]
pub struct Modifiers {
    pub shift: bool,
    pub control: bool,
    pub alt: bool,
    pub logo: bool,
}

/// The modifier bits of the kitty protocol: shift 1, alt 2, control 4, super 8.
pub open spec fn mod_bits(m: Modifiers) -> nat {
    (if m.shift { 1nat } else { 0 }) + (if m.alt { 2nat } else { 0 }) + (if m.control { 4nat } else { 0 }) + (if m.logo { 8nat } else { 0 })
}

pub fn kitty_mod_bits(m: Modifiers) -> (b: u8)
    ensures
        b as nat == mod_bits(m),
{
    let mut b: u8 = 0;
    if m.shift {
        b = b + 1;
    }
    if m.alt {
        b = b + 2;
    }
    if m.control {
        b = b + 4;
    }
    if m.logo {
        b = b + 8;
    }
    b
}

/// `ESC [ letter`, or `ESC [ 1 ; mods+1 letter` with modifiers.
pub open spec fn csi_letter(letter: u8, m: Modifiers) -> Seq<u8> {
    if mod_bits(m) == 0 {
        seq![0x1bu8, 0x5b, letter]
    } else {
        seq![0x1bu8, 0x5b, 0x31, 0x3b] + decimal(mod_bits(m) + 1) + seq![letter]
    }
}

/// `ESC [ num ~`, or `ESC [ num ; mods+1 ~` with modifiers.
pub open spec fn csi_tilde(num: nat, m: Modifiers) -> Seq<u8> {
    if mod_bits(m) == 0 {
        seq![0x1bu8, 0x5b] + decimal(num) + seq![0x7eu8]
    } else {
        seq![0x1bu8, 0x5b] + decimal(num) + seq![0x3bu8] + decimal(mod_bits(m) + 1) + seq![0x7eu8]
    }
}

/// `ESC [ code u`, or `ESC [ code ; mods+1 u` with modifiers.
pub open spec fn csi_u(code: nat, m: Modifiers) -> Seq<u8> {
    if mod_bits(m) == 0 {
        seq![0x1bu8, 0x5b] + decimal(code) + seq![0x75u8]
    } else {
        seq![0x1bu8, 0x5b] + decimal(code) + seq![0x3bu8] + decimal(mod_bits(m) + 1) + seq![0x75u8]
    }
}

/// F1 to F4: `ESC O letter`, or `ESC [ 1 ; mods+1 letter` with modifiers.
pub open spec fn f1_f4(letter: u8, m: Modifiers) -> Seq<u8> {
    if mod_bits(m) == 0 {
        seq![0x1bu8, 0x4f, letter]
    } else {
        seq![0x1bu8, 0x5b, 0x31, 0x3b] + decimal(mod_bits(m) + 1) + seq![letter]
    }
}

pub fn kitty_csi_letter(letter: u8, m: Modifiers) -> (out: Vec<u8>)
    ensures
        out@ == csi_letter(letter, m),
{
    let bits = kitty_mod_bits(m);
    if bits == 0 {
        vec![0x1bu8, 0x5b, letter]
    } else {
        let mut out = vec![0x1bu8, 0x5b, 0x31, 0x3b];
        push_decimal(&mut out, bits as usize + 1);
        out.push(letter);
        out
    }
}

pub fn kitty_csi_tilde(num: u8, m: Modifiers) -> (out: Vec<u8>)
    ensures
        out@ == csi_tilde(num as nat, m),
{
    let bits = kitty_mod_bits(m);
    let mut out = vec![0x1bu8, 0x5b];
    push_decimal(&mut out, num as usize);
    if bits != 0 {
        out.push(0x3b);
        push_decimal(&mut out, bits as usize + 1);
    }
    out.push(0x7e);
    out
}

pub fn kitty_csi_u(code: u32, m: Modifiers) -> (out: Vec<u8>)
    ensures
        out@ == csi_u(code as nat, m),
{
    let bits = kitty_mod_bits(m);
    let mut out = vec![0x1bu8, 0x5b];
    push_decimal(&mut out, code as usize);
    if bits != 0 {
        out.push(0x3b);
        push_decimal(&mut out, bits as usize + 1);
    }
    out.push(0x75);
    out
}

pub fn kitty_f1_f4(letter: u8, m: Modifiers) -> (out: Vec<u8>)
    ensures
        out@ == f1_f4(letter, m),
{
    let bits = kitty_mod_bits(m);
    if bits == 0 {
        vec![0x1bu8, 0x4f, letter]
    } else {
        let mut out = vec![0x1bu8, 0x5b, 0x31, 0x3b];
        push_decimal(&mut out, bits as usize + 1);
        out.push(letter);
        out
    }
}

/// Whether a key press with modifiers triggers a keybinding: the same modifiers, and
/// Tab for a Tab binding or a character key whose first character is the bound one.
pub open spec fn kb_matches(kb: ParsedKeybinding, key: KeyView, m: Modifiers) -> bool {
    if kb.ctrl != m.control || kb.shift != m.shift || kb.alt != m.alt || kb.meta != m.logo {
        false
    } else {
        match (kb.key, key) {
            (KeyId::Tab, KeyView::Named(NamedKey::Tab)) => true,
            (KeyId::Char(c), KeyView::Character(s)) => s.len() > 0 && s[0] == c,
            _ => false,
        }
    }
}

pub fn matches_kb(kb: &ParsedKeybinding, key: &KeyInput, m: Modifiers) -> (r: bool)
    ensures
        r == kb_matches(*kb, key@, m),
{
    if kb.ctrl != m.control || kb.shift != m.shift || kb.alt != m.alt || kb.meta != m.logo {
        return false;
    }
    match (&kb.key, key) {
        (KeyId::Tab, KeyInput::Named(NamedKey::Tab)) => true,
        (KeyId::Char(c), KeyInput::Character(s)) => {
            let t = s.as_str();
            t.unicode_len() > 0 && t.get_char(0) == *c
        },
        _ => false,
    }
}


/// What the user interface is doing when a key is pressed.
#[derive(Clone, Copy, Debug, PartialEq, Eq, Structural)]
pub struct KeyContext {
    pub recording_kb: bool,
    pub settings_open: bool,
    pub ai_open: bool,
    pub palette_open: bool,
    pub search_open: bool,
    pub kitty_flags: u32,
}

/// What a key press does.
#[derive(Debug, PartialEq)]
pub enum KeyAction {
    SettingsCancelRecordKb,
    SettingsRecordKb,
    CloseSettings,
    CloseAiOverlay,
    CloseCommandPalette,
    PaletteNavigate(i32),
    PaletteConfirm,
    SearchClose,
    SearchPrev,
    SearchNext,
    SplitPane,
    CloseSplitPane,
    FontSizeUp,
    FontSizeDown,
    FontSizeReset,
    SearchOpen,
    PrevTab,
    NextTab,
    NewTab,
    CloseActiveTab,
    PasteRequested,
    CopySelection,
    OpenCommandPalette,
    Type(Vec<u8>),
}

pub ghost enum ActionView {
    SettingsCancelRecordKb,
    SettingsRecordKb,
    CloseSettings,
    CloseAiOverlay,
    CloseCommandPalette,
    PaletteNavigate(i32),
    PaletteConfirm,
    SearchClose,
    SearchPrev,
    SearchNext,
    SplitPane,
    CloseSplitPane,
    FontSizeUp,
    FontSizeDown,
    FontSizeReset,
    SearchOpen,
    PrevTab,
    NextTab,
    NewTab,
    CloseActiveTab,
    PasteRequested,
    CopySelection,
    OpenCommandPalette,
    Type(Seq<u8>),
}

impl View for KeyAction {
    type V = ActionView;

    open spec fn view(&self) -> ActionView {
        match self {
            KeyAction::SettingsCancelRecordKb => ActionView::SettingsCancelRecordKb,
            KeyAction::SettingsRecordKb => ActionView::SettingsRecordKb,
            KeyAction::CloseSettings => ActionView::CloseSettings,
            KeyAction::CloseAiOverlay => ActionView::CloseAiOverlay,
            KeyAction::CloseCommandPalette => ActionView::CloseCommandPalette,
            KeyAction::PaletteNavigate(d) => ActionView::PaletteNavigate(*d),
            KeyAction::PaletteConfirm => ActionView::PaletteConfirm,
            KeyAction::SearchClose => ActionView::SearchClose,
            KeyAction::SearchPrev => ActionView::SearchPrev,
            KeyAction::SearchNext => ActionView::SearchNext,
            KeyAction::SplitPane => ActionView::SplitPane,
            KeyAction::CloseSplitPane => ActionView::CloseSplitPane,
            KeyAction::FontSizeUp => ActionView::FontSizeUp,
            KeyAction::FontSizeDown => ActionView::FontSizeDown,
            KeyAction::FontSizeReset => ActionView::FontSizeReset,
            KeyAction::SearchOpen => ActionView::SearchOpen,
            KeyAction::PrevTab => ActionView::PrevTab,
            KeyAction::NextTab => ActionView::NextTab,
            KeyAction::NewTab => ActionView::NewTab,
            KeyAction::CloseActiveTab => ActionView::CloseActiveTab,
            KeyAction::PasteRequested => ActionView::PasteRequested,
            KeyAction::CopySelection => ActionView::CopySelection,
            KeyAction::OpenCommandPalette => ActionView::OpenCommandPalette,
            KeyAction::Type(b) => ActionView::Type(b@),
        }
    }
}

pub open spec fn action_opt(a: Option<KeyAction>) -> Option<ActionView> {
    match a {
        Some(x) => Some(x@),
        None => None,
    }
}

pub open spec fn is_named(k: KeyView, n: NamedKey) -> bool {
    k == KeyView::Named(n)
}

/// While a dialog or overlay has the keyboard, only its own keys act: Escape closes it,
/// and the palette and search bar also navigate. Recording a keybinding takes any key.
/// `None` when no dialog has the keyboard.
pub open spec fn modal_action(cx: KeyContext, key: KeyView, m: Modifiers) -> Option<Option<ActionView>> {
    if cx.recording_kb {
        Some(Some(if is_named(key, NamedKey::Escape) { ActionView::SettingsCancelRecordKb } else { ActionView::SettingsRecordKb }))
    } else if cx.settings_open {
        Some(if is_named(key, NamedKey::Escape) { Some(ActionView::CloseSettings) } else { None })
    } else if cx.ai_open {
        Some(if is_named(key, NamedKey::Escape) { Some(ActionView::CloseAiOverlay) } else { None })
    } else if cx.palette_open {
        Some(
            if is_named(key, NamedKey::Escape) { Some(ActionView::CloseCommandPalette) }
            else if is_named(key, NamedKey::ArrowUp) { Some(ActionView::PaletteNavigate(-1i32)) }
            else if is_named(key, NamedKey::ArrowDown) { Some(ActionView::PaletteNavigate(1i32)) }
            else if is_named(key, NamedKey::Enter) { Some(ActionView::PaletteConfirm) }
            else { None },
        )
    } else if cx.search_open {
        Some(
            if is_named(key, NamedKey::Escape) { Some(ActionView::SearchClose) }
            else if is_named(key, NamedKey::Enter) { Some(if m.shift { ActionView::SearchPrev } else { ActionView::SearchNext }) }
            else { None },
        )
    } else {
        None
    }
}

pub open spec fn is_text(k: KeyView, t: Seq<char>) -> bool {
    k == KeyView::Character(t)
}

/// Application shortcuts: control+shift+T/W split and unsplit, control with `=`/`+`,
/// `-`, `0` changes the font size and with `f` opens search, then the configured
/// keybindings.
pub open spec fn shortcut_action(key: KeyView, m: Modifiers, kb: ParsedKeybindings, palette: ParsedKeybinding) -> Option<ActionView> {
    let split_mod = m.control && m.shift;
    let font_mod = m.control && !m.shift;
    if split_mod && (is_text(key, seq!['t']) || is_text(key, seq!['T'])) {
        Some(ActionView::SplitPane)
    } else if split_mod && (is_text(key, seq!['w']) || is_text(key, seq!['W'])) {
        Some(ActionView::CloseSplitPane)
    } else if font_mod && (is_text(key, seq!['=']) || is_text(key, seq!['+'])) {
        Some(ActionView::FontSizeUp)
    } else if font_mod && is_text(key, seq!['-']) {
        Some(ActionView::FontSizeDown)
    } else if font_mod && is_text(key, seq!['0']) {
        Some(ActionView::FontSizeReset)
    } else if font_mod && (is_text(key, seq!['f']) || is_text(key, seq!['F'])) {
        Some(ActionView::SearchOpen)
    } else if kb_matches(kb.prev_tab, key, m) {
        Some(ActionView::PrevTab)
    } else if kb_matches(kb.next_tab, key, m) {
        Some(ActionView::NextTab)
    } else if kb_matches(kb.new_tab, key, m) {
        Some(ActionView::NewTab)
    } else if kb_matches(kb.close_tab, key, m) {
        Some(ActionView::CloseActiveTab)
    } else if kb_matches(kb.paste, key, m) {
        Some(ActionView::PasteRequested)
    } else if kb_matches(kb.copy, key, m) {
        Some(ActionView::CopySelection)
    } else if kb_matches(palette, key, m) {
        Some(ActionView::OpenCommandPalette)
    } else {
        None
    }
}

pub open spec fn no_mods() -> Modifiers {
    Modifiers { shift: false, control: false, alt: false, logo: false }
}

/// The bytes a named key sends, if it sends any.
pub open spec fn named_key_bytes(n: NamedKey, m: Modifiers, flags: u32) -> Option<Seq<u8>> {
    let kitty = flags != 0;
    let bits = mod_bits(m);
    match n {
        NamedKey::Enter => Some(if kitty && bits != 0 { csi_u(13, m) } else { seq![0x0du8] }),
        NamedKey::Backspace => Some(if kitty && bits != 0 { csi_u(127, m) } else { seq![0x7fu8] }),
        NamedKey::Tab => Some(if kitty && m.shift { csi_u(9, m) } else if !kitty && m.shift { seq![0x1bu8, 0x5b, 0x5a] } else { seq![0x09u8] }),
        NamedKey::Space => Some(if kitty && bits != 0 { csi_u(32, m) } else { seq![0x20u8] }),
        NamedKey::Escape => Some(if kitty && flags & 1 != 0 { csi_u(27, no_mods()) } else { seq![0x1bu8] }),
        NamedKey::ArrowUp => Some(if kitty { csi_letter(0x41, m) } else { seq![0x1bu8, 0x5b, 0x41] }),
        NamedKey::ArrowDown => Some(if kitty { csi_letter(0x42, m) } else { seq![0x1bu8, 0x5b, 0x42] }),
        NamedKey::ArrowRight => Some(
            if kitty { csi_letter(0x43, m) }
            else if m.alt { seq![0x05u8] }
            else if m.control { seq![0x1bu8, 0x66] }
            else { seq![0x1bu8, 0x5b, 0x43] },
        ),
        NamedKey::ArrowLeft => Some(
            if kitty { csi_letter(0x44, m) }
            else if m.alt { seq![0x01u8] }
            else if m.control { seq![0x1bu8, 0x62] }
            else { seq![0x1bu8, 0x5b, 0x44] },
        ),
        NamedKey::Delete => Some(csi_tilde(3, m)),
        NamedKey::Insert => Some(csi_tilde(2, m)),
        NamedKey::Home => Some(if kitty { csi_letter(0x48, m) } else { seq![0x1bu8, 0x5b, 0x48] }),
        NamedKey::End => Some(if kitty { csi_letter(0x46, m) } else { seq![0x1bu8, 0x5b, 0x46] }),
        NamedKey::PageUp => Some(csi_tilde(5, m)),
        NamedKey::PageDown => Some(csi_tilde(6, m)),
        NamedKey::F1 => Some(f1_f4(0x50, m)),
        NamedKey::F2 => Some(f1_f4(0x51, m)),
        NamedKey::F3 => Some(f1_f4(0x52, m)),
        NamedKey::F4 => Some(f1_f4(0x53, m)),
        NamedKey::F5 => Some(csi_tilde(15, m)),
        NamedKey::F6 => Some(csi_tilde(17, m)),
        NamedKey::F7 => Some(csi_tilde(18, m)),
        NamedKey::F8 => Some(csi_tilde(19, m)),
        NamedKey::F9 => Some(csi_tilde(20, m)),
        NamedKey::F10 => Some(csi_tilde(21, m)),
        NamedKey::F11 => Some(csi_tilde(23, m)),
        NamedKey::F12 => Some(csi_tilde(24, m)),
        NamedKey::Other => None,
    }
}

pub open spec fn ascii_alpha(c: char) -> bool {
    ('a' <= c && c <= 'z') || ('A' <= c && c <= 'Z')
}

/// The text a character key types: with shift, `'` becomes `"` and `` ` `` becomes `~`.
pub open spec fn typed_text(s: Seq<char>, m: Modifiers) -> Seq<char> {
    if m.shift && s == seq!['\''] {
        seq!['"']
    } else if m.shift && s == seq!['`'] {
        seq!['~']
    } else {
        s
    }
}

/// Keys not taken by the interface: named keys send their sequences; with control, a
/// letter sends its control code (or a kitty sequence with shift) and other keys
/// nothing; otherwise a character key types its text (taken from the key with
/// modifiers applied when it is a character).
pub open spec fn terminal_action(key: KeyView, m: Modifiers, mkey: KeyView, flags: u32) -> Option<ActionView> {
    let kitty = flags != 0;
    match key {
        KeyView::Named(n) if named_key_bytes(n, m, flags) is Some => Some(ActionView::Type(named_key_bytes(n, m, flags).unwrap())),
        _ => {
            if m.control {
                match key {
                    KeyView::Character(c) if c.len() > 0 && ascii_alpha(c[0]) => {
                        let lower = crate::config::lower_char(c[0]);
                        if kitty && m.shift {
                            Some(ActionView::Type(csi_u(lower as nat, m)))
                        } else {
                            Some(ActionView::Type(seq![(lower as u8) & 0x1f]))
                        }
                    },
                    _ => None,
                }
            } else {
                let source = match mkey { KeyView::Character(_) => mkey, _ => key };
                match source {
                    KeyView::Character(s) => Some(ActionView::Type(encode_utf8(typed_text(s, m)))),
                    _ => None,
                }
            }
        },
    }
}

/// What a key press does (`modified_key` is the key with modifiers applied).
pub open spec fn key_action(cx: KeyContext, key: KeyView, m: Modifiers, mkey: KeyView, kb: ParsedKeybindings, palette: ParsedKeybinding) -> Option<ActionView> {
    match modal_action(cx, key, m) {
        Some(a) => a,
        None => match shortcut_action(key, m, kb, palette) {
            Some(a) => Some(a),
            None => terminal_action(key, m, mkey, cx.kitty_flags),
        },
    }
}

fn key_is(key: &KeyInput, n: NamedKey) -> (r: bool)
    ensures
        r == is_named(key@, n),
{
    match key {
        KeyInput::Named(k) => *k == n,
        _ => false,
    }
}

fn key_is_text(key: &KeyInput, c: char) -> (r: bool)
    ensures
        r == is_text(key@, seq![c]),
{
    match key {
        KeyInput::Character(s) => {
            let t = s.as_str();
            if t.unicode_len() == 1 && t.get_char(0) == c {
                assert(s@ =~= seq![c]);
                true
            } else {
                assert(s@.len() != 1 ==> s@ != seq![c]);
                false
            }
        },
        _ => false,
    }
}

fn modal_exec(cx: &KeyContext, key: &KeyInput, m: Modifiers) -> (r: Option<Option<KeyAction>>)
    ensures
        match r {
            Some(a) => modal_action(*cx, key@, m) == Some(action_opt(a)),
            None => modal_action(*cx, key@, m) is None,
        },
{
    if cx.recording_kb {
        Some(Some(if key_is(key, NamedKey::Escape) { KeyAction::SettingsCancelRecordKb } else { KeyAction::SettingsRecordKb }))
    } else if cx.settings_open {
        Some(if key_is(key, NamedKey::Escape) { Some(KeyAction::CloseSettings) } else { None })
    } else if cx.ai_open {
        Some(if key_is(key, NamedKey::Escape) { Some(KeyAction::CloseAiOverlay) } else { None })
    } else if cx.palette_open {
        Some(
            if key_is(key, NamedKey::Escape) { Some(KeyAction::CloseCommandPalette) }
            else if key_is(key, NamedKey::ArrowUp) { Some(KeyAction::PaletteNavigate(-1)) }
            else if key_is(key, NamedKey::ArrowDown) { Some(KeyAction::PaletteNavigate(1)) }
            else if key_is(key, NamedKey::Enter) { Some(KeyAction::PaletteConfirm) }
            else { None },
        )
    } else if cx.search_open {
        Some(
            if key_is(key, NamedKey::Escape) { Some(KeyAction::SearchClose) }
            else if key_is(key, NamedKey::Enter) { Some(if m.shift { KeyAction::SearchPrev } else { KeyAction::SearchNext }) }
            else { None },
        )
    } else {
        None
    }
}

fn shortcut_exec(key: &KeyInput, m: Modifiers, kb: &ParsedKeybindings, palette: &ParsedKeybinding) -> (r: Option<KeyAction>)
    ensures
        action_opt(r) == shortcut_action(key@, m, *kb, *palette),
{
    let split_mod = m.control && m.shift;
    let font_mod = m.control && !m.shift;
    if split_mod && (key_is_text(key, 't') || key_is_text(key, 'T')) {
        Some(KeyAction::SplitPane)
    } else if split_mod && (key_is_text(key, 'w') || key_is_text(key, 'W')) {
        Some(KeyAction::CloseSplitPane)
    } else if font_mod && (key_is_text(key, '=') || key_is_text(key, '+')) {
        Some(KeyAction::FontSizeUp)
    } else if font_mod && key_is_text(key, '-') {
        Some(KeyAction::FontSizeDown)
    } else if font_mod && key_is_text(key, '0') {
        Some(KeyAction::FontSizeReset)
    } else if font_mod && (key_is_text(key, 'f') || key_is_text(key, 'F')) {
        Some(KeyAction::SearchOpen)
    } else if matches_kb(&kb.prev_tab, key, m) {
        Some(KeyAction::PrevTab)
    } else if matches_kb(&kb.next_tab, key, m) {
        Some(KeyAction::NextTab)
    } else if matches_kb(&kb.new_tab, key, m) {
        Some(KeyAction::NewTab)
    } else if matches_kb(&kb.close_tab, key, m) {
        Some(KeyAction::CloseActiveTab)
    } else if matches_kb(&kb.paste, key, m) {
        Some(KeyAction::PasteRequested)
    } else if matches_kb(&kb.copy, key, m) {
        Some(KeyAction::CopySelection)
    } else if matches_kb(palette, key, m) {
        Some(KeyAction::OpenCommandPalette)
    } else {
        None
    }
}

/// The bytes a named key sends (see [`named_key_bytes`]).
pub fn named_key_sequence(n: NamedKey, m: Modifiers, flags: u32) -> (r: Option<Vec<u8>>)
    ensures
        match r {
            Some(v) => named_key_bytes(n, m, flags) == Some(v@),
            None => named_key_bytes(n, m, flags) is None,
        },
{
    let kitty = flags != 0;
    let bits = kitty_mod_bits(m);
    let none = Modifiers { shift: false, control: false, alt: false, logo: false };
    let v = match n {
        NamedKey::Enter => if kitty && bits != 0 { kitty_csi_u(13, m) } else { vec![0x0du8] },
        NamedKey::Backspace => if kitty && bits != 0 { kitty_csi_u(127, m) } else { vec![0x7fu8] },
        NamedKey::Tab => if kitty && m.shift { kitty_csi_u(9, m) } else if !kitty && m.shift { vec![0x1bu8, 0x5b, 0x5a] } else { vec![0x09u8] },
        NamedKey::Space => if kitty && bits != 0 { kitty_csi_u(32, m) } else { vec![0x20u8] },
        NamedKey::Escape => if kitty && flags & 1 != 0 { kitty_csi_u(27, none) } else { vec![0x1bu8] },
        NamedKey::ArrowUp => if kitty { kitty_csi_letter(0x41, m) } else { vec![0x1bu8, 0x5b, 0x41] },
        NamedKey::ArrowDown => if kitty { kitty_csi_letter(0x42, m) } else { vec![0x1bu8, 0x5b, 0x42] },
        NamedKey::ArrowRight => if kitty { kitty_csi_letter(0x43, m) } else if m.alt { vec![0x05u8] } else if m.control { vec![0x1bu8, 0x66] } else { vec![0x1bu8, 0x5b, 0x43] },
        NamedKey::ArrowLeft => if kitty { kitty_csi_letter(0x44, m) } else if m.alt { vec![0x01u8] } else if m.control { vec![0x1bu8, 0x62] } else { vec![0x1bu8, 0x5b, 0x44] },
        NamedKey::Delete => kitty_csi_tilde(3, m),
        NamedKey::Insert => kitty_csi_tilde(2, m),
        NamedKey::Home => if kitty { kitty_csi_letter(0x48, m) } else { vec![0x1bu8, 0x5b, 0x48] },
        NamedKey::End => if kitty { kitty_csi_letter(0x46, m) } else { vec![0x1bu8, 0x5b, 0x46] },
        NamedKey::PageUp => kitty_csi_tilde(5, m),
        NamedKey::PageDown => kitty_csi_tilde(6, m),
        NamedKey::F1 => kitty_f1_f4(0x50, m),
        NamedKey::F2 => kitty_f1_f4(0x51, m),
        NamedKey::F3 => kitty_f1_f4(0x52, m),
        NamedKey::F4 => kitty_f1_f4(0x53, m),
        NamedKey::F5 => kitty_csi_tilde(15, m),
        NamedKey::F6 => kitty_csi_tilde(17, m),
        NamedKey::F7 => kitty_csi_tilde(18, m),
        NamedKey::F8 => kitty_csi_tilde(19, m),
        NamedKey::F9 => kitty_csi_tilde(20, m),
        NamedKey::F10 => kitty_csi_tilde(21, m),
        NamedKey::F11 => kitty_csi_tilde(23, m),
        NamedKey::F12 => kitty_csi_tilde(24, m),
        NamedKey::Other => return None,
    };
    Some(v)
}

fn typed_bytes(s: &String, m: Modifiers) -> (out: Vec<u8>)
    ensures
        out@ == encode_utf8(typed_text(s@, m)),
{
    let t = s.as_str();
    if m.shift && t.unicode_len() == 1 && t.get_char(0) == '\'' {
        assert(s@ =~= seq!['\'']);
        let q = String::from_str("\"");
        proof {
            reveal_strlit("\"");
            assert(q@ =~= seq!['"']);
        }
        return q.as_str().as_bytes_vec();
    }
    if m.shift && t.unicode_len() == 1 && t.get_char(0) == '`' {
        assert(s@ =~= seq!['`']);
        let q = String::from_str("~");
        proof {
            reveal_strlit("~");
            assert(q@ =~= seq!['~']);
        }
        return q.as_str().as_bytes_vec();
    }
    assert(s@.len() != 1 ==> s@ != seq!['\''] && s@ != seq!['`']);
    t.as_bytes_vec()
}

fn terminal_exec(key: &KeyInput, m: Modifiers, mkey: &KeyInput, flags: u32) -> (r: Option<KeyAction>)
    ensures
        action_opt(r) == terminal_action(key@, m, mkey@, flags),
{
    let kitty = flags != 0;
    if let KeyInput::Named(n) = key {
        if let Some(v) = named_key_sequence(*n, m, flags) {
            return Some(KeyAction::Type(v));
        }
    }
    if m.control {
        if let KeyInput::Character(c) = key {
            let t = c.as_str();
            if t.unicode_len() > 0 {
                let ch = t.get_char(0);
                if ('a' <= ch && ch <= 'z') || ('A' <= ch && ch <= 'Z') {
                    let lower = if 'A' <= ch && ch <= 'Z' { ((ch as u8) + 32) as char } else { ch };
                    if kitty && m.shift {
                        return Some(KeyAction::Type(kitty_csi_u(lower as u32, m)));
                    }
                    let b: u8 = (lower as u8) & 0x1f;
                    assert(lower == crate::config::lower_char(c@[0]));
                    assert(b == (crate::config::lower_char(c@[0]) as u8) & 0x1f);
                    let out = vec![b];
                    assert(out@ =~= seq![b]);
                    return Some(KeyAction::Type(out));
                }
            }
        }
        return None;
    }
    let source = match mkey {
        KeyInput::Character(_) => mkey,
        _ => key,
    };
    match source {
        KeyInput::Character(s) => Some(KeyAction::Type(typed_bytes(s, m))),
        _ => None,
    }
}

/// What a key press does (see [`key_action`]). `palette` is the keybinding that opens
/// the command palette.
pub fn handle_key_pressed(cx: &KeyContext, key: &KeyInput, modifiers: Modifiers, modified_key: &KeyInput, kb: &ParsedKeybindings, palette: &ParsedKeybinding) -> (r: Option<KeyAction>)
    ensures
        action_opt(r) == key_action(*cx, key@, modifiers, modified_key@, *kb, *palette),
{
    if let Some(a) = modal_exec(cx, key, modifiers) {
        return a;
    }
    if let Some(a) = shortcut_exec(key, modifiers, kb, palette) {
        return Some(a);
    }
    terminal_exec(key, modifiers, modified_key, cx.kitty_flags)
}

/// The modifier names of a recorded keybinding, each followed by `+`.
pub open spec fn mods_prefix(m: Modifiers) -> Seq<char> {
    (if m.control { seq!['c', 't', 'r', 'l', '+'] } else { Seq::empty() })
        + (if m.shift { seq!['s', 'h', 'i', 'f', 't', '+'] } else { Seq::empty() })
        + (if m.alt { seq!['a', 'l', 't', '+'] } else { Seq::empty() })
        + (if m.logo { seq!['c', 'm', 'd', '+'] } else { Seq::empty() })
}

/// A recorded key press written as a keybinding string: the modifiers, then `tab` or
/// the key's text in ASCII lower case; other keys cannot be bound.
pub open spec fn kb_string(key: KeyView, m: Modifiers) -> Option<Seq<char>> {
    match key {
        KeyView::Named(NamedKey::Tab) => Some(mods_prefix(m) + seq!['t', 'a', 'b']),
        KeyView::Character(s) => Some(mods_prefix(m) + crate::config::ascii_lower(s)),
        _ => None,
    }
}

fn push_word(out: &mut String, w: &[char])
    ensures
        final(out)@ == old(out)@ + w@,
{
    crate::text::push_chars(out, w);
}

/// Write a key press as a keybinding string (see [`kb_string`]).
pub fn keybinding_to_string(key: &KeyInput, m: Modifiers) -> (r: Option<String>)
    ensures
        match r {
            Some(s) => kb_string(key@, m) == Some(s@),
            None => kb_string(key@, m) is None,
        },
{
    let mut out = String::new();
    let ghost e: Seq<char> = Seq::empty();
    let w_ctrl = ['c', 't', 'r', 'l', '+'];
    let w_shift = ['s', 'h', 'i', 'f', 't', '+'];
    let w_alt = ['a', 'l', 't', '+'];
    let w_cmd = ['c', 'm', 'd', '+'];
    let w_tab = ['t', 'a', 'b'];
    if m.control {
        push_word(&mut out, &w_ctrl);
    }
    if m.shift {
        push_word(&mut out, &w_shift);
    }
    if m.alt {
        push_word(&mut out, &w_alt);
    }
    if m.logo {
        push_word(&mut out, &w_cmd);
    }
    assert(out@ =~= mods_prefix(m));
    match key {
        KeyInput::Named(NamedKey::Tab) => {
            push_word(&mut out, &w_tab);
            assert(w_tab@ =~= seq!['t', 'a', 'b']);
            Some(out)
        },
        KeyInput::Character(s) => {
            let v = crate::text::chars_of(s.as_str());
            let n = v.len();
            let low = lower_all(v.as_slice(), n);
            crate::text::push_chars(&mut out, low.as_slice());
            Some(out)
        },
        _ => None,
    }
}

fn lower_all(v: &[char], n: usize) -> (out: Vec<char>)
    requires
        n == v@.len(),
    ensures
        out@ == crate::config::ascii_lower(v@),
{
    let mut out: Vec<char> = Vec::new();
    let mut i: usize = 0;
    while i < n
        invariant
            n == v@.len(),
            i <= n,
            out@ == crate::config::ascii_lower(v@.take(i as int)),
        decreases n - i,
    {
        let c = v[i];
        let l = if 'A' <= c && c <= 'Z' { ((c as u8) + 32) as char } else { c };
        out.push(l);
        i = i + 1;
        assert(out@ =~= crate::config::ascii_lower(v@.take(i as int)));
    }
    assert(v@.take(n as int) =~= v@);
    out
}

proof fn lemma_split_word(a: crate::config::KbScan, w: Seq<char>, rest: Seq<char>)
    requires
        !w.contains('+'),
    ensures
        crate::config::scan_parts(a, w + seq!['+'] + rest) == crate::config::scan_parts(crate::config::scan_part(a, w), rest),
{
    let s = w + seq!['+'] + rest;
    assert forall|k: int| 0 <= k < w.len() implies s[k] != '+' by {
        assert(s[k] == w[k]);
    }
    crate::text::lemma_first_index_found(s, '+', w.len() as int);
    assert(s.take(w.len() as int) =~= w);
    assert(s.skip(w.len() + 1int) =~= rest);
}

proof fn lemma_opt_word(a: crate::config::KbScan, on: bool, w: Seq<char>, rest: Seq<char>)
    requires
        !w.contains('+'),
    ensures
        crate::config::scan_parts(a, (if on { w + seq!['+'] } else { Seq::empty() }) + rest)
            == crate::config::scan_parts(if on { crate::config::scan_part(a, w) } else { a }, rest),
{
    if on {
        assert((w + seq!['+']) + rest =~= w + seq!['+'] + rest);
        lemma_split_word(a, w, rest);
    } else {
        assert(Seq::<char>::empty() + rest =~= rest);
    }
}

proof fn lemma_no_plus(w: Seq<char>)
    requires
        forall|i: int| 0 <= i < w.len() ==> w[i] != '+',
    ensures
        !w.contains('+'),
{
}

/// A key recorded as a keybinding string parses back to the same modifiers and key (in
/// lower case): Tab, or a single ASCII character other than `+`.
pub proof fn law_keybinding_round_trip(key: KeyView, m: Modifiers)
    requires
        key == KeyView::Named(NamedKey::Tab)
            || (key matches KeyView::Character(s) && s.len() == 1 && (s[0] as u32) < 0x80 && s[0] != '+'),
    ensures
        kb_string(key, m) is Some,
        crate::config::parse_kb(kb_string(key, m).unwrap()) == Ok::<ParsedKeybinding, Seq<char>>(ParsedKeybinding {
            ctrl: m.control,
            shift: m.shift,
            alt: m.alt,
            meta: m.logo,
            key: match key {
                KeyView::Character(s) => KeyId::Char(lower_char(s[0])),
                _ => KeyId::Tab,
            },
        }),
{
    let w_ctrl = seq!['c', 't', 'r', 'l'];
    let w_shift = seq!['s', 'h', 'i', 'f', 't'];
    let w_alt = seq!['a', 'l', 't'];
    let w_cmd = seq!['c', 'm', 'd'];
    lemma_no_plus(w_ctrl);
    lemma_no_plus(w_shift);
    lemma_no_plus(w_alt);
    lemma_no_plus(w_cmd);
    let last: Seq<char> = match key {
        KeyView::Character(s) => crate::config::ascii_lower(s),
        _ => seq!['t', 'a', 'b'],
    };
    assert(kb_string(key, m) == Some(mods_prefix(m) + last));
    let p1: Seq<char> = if m.control { w_ctrl + seq!['+'] } else { Seq::empty() };
    let p2: Seq<char> = if m.shift { w_shift + seq!['+'] } else { Seq::empty() };
    let p3: Seq<char> = if m.alt { w_alt + seq!['+'] } else { Seq::empty() };
    let p4: Seq<char> = if m.logo { w_cmd + seq!['+'] } else { Seq::empty() };
    assert(mods_prefix(m) =~= p1 + p2 + p3 + p4);
    assert(mods_prefix(m) + last =~= p1 + (p2 + (p3 + (p4 + last))));
    let a0 = crate::config::KbScan { ctrl: false, shift: false, alt: false, meta: false, key: Seq::empty() };
    assert(crate::config::ascii_lower(w_ctrl) =~= w_ctrl);
    assert(crate::config::ascii_lower(w_shift) =~= w_shift);
    assert(crate::config::ascii_lower(w_alt) =~= w_alt);
    assert(crate::config::ascii_lower(w_cmd) =~= w_cmd);
    let a1 = if m.control { crate::config::scan_part(a0, w_ctrl) } else { a0 };
    let a2 = if m.shift { crate::config::scan_part(a1, w_shift) } else { a1 };
    let a3 = if m.alt { crate::config::scan_part(a2, w_alt) } else { a2 };
    let a4 = if m.logo { crate::config::scan_part(a3, w_cmd) } else { a3 };
    assert(w_shift != seq!['c', 't', 'r', 'l']);
    assert(w_alt != seq!['c', 't', 'r', 'l'] && w_alt != seq!['s', 'h', 'i', 'f', 't']);
    assert(w_cmd[0] != seq!['a', 'l', 't'][0]);
    assert(w_cmd != seq!['c', 't', 'r', 'l'] && w_cmd != seq!['s', 'h', 'i', 'f', 't'] && w_cmd != seq!['a', 'l', 't'] && w_cmd != seq!['o', 'p', 't', 'i', 'o', 'n']);
    assert(w_alt != seq!['o', 'p', 't', 'i', 'o', 'n']);
    lemma_opt_word(a0, m.control, w_ctrl, p2 + (p3 + (p4 + last)));
    lemma_opt_word(a1, m.shift, w_shift, p3 + (p4 + last));
    lemma_opt_word(a2, m.alt, w_alt, p4 + last);
    lemma_opt_word(a3, m.logo, w_cmd, last);
    assert(a4.ctrl == m.control && a4.shift == m.shift && a4.alt == m.alt && a4.meta == m.logo);
    match key {
        KeyView::Character(s) => {
            let c = s[0];
            assert(last =~= seq![lower_char(c)]);
            assert(last[0] != '+');
            lemma_no_plus(last);
            crate::text::lemma_first_index_absent(last, '+');
            let l = crate::config::ascii_lower(last);
            assert(l =~= seq![lower_char(c)]);
            assert(l.len() == 1);
            assert(crate::config::scan_parts(a4, last) == crate::config::scan_part(a4, last));
            assert(crate::config::scan_part(a4, last) == crate::config::KbScan { key: last, ..a4 });
        },
        _ => {
            lemma_no_plus(last);
            crate::text::lemma_first_index_absent(last, '+');
            let l = crate::config::ascii_lower(last);
            assert(l =~= seq!['t', 'a', 'b']);
            assert(l[0] != seq!['c', 't', 'r', 'l'][0] && l[0] != seq!['s', 'h', 'i', 'f', 't'][0] && l[0] != seq!['a', 'l', 't'][0]);
            assert(l[0] != seq!['o', 'p', 't', 'i', 'o', 'n'][0] && l[0] != seq!['c', 'm', 'd'][0] && l[0] != seq!['c', 'o', 'm', 'm', 'a', 'n', 'd'][0]);
            assert(l[0] != seq!['m', 'e', 't', 'a'][0] && l[0] != seq!['s', 'u', 'p', 'e', 'r'][0]);
            assert(crate::config::scan_part(a4, last) == crate::config::KbScan { key: last, ..a4 });
        },
    }
}

/// Arrow keys: in the legacy encoding, without Ctrl or Alt, each arrow sends `ESC [`
/// and its own letter (Up A, Down B, Right C, Left D), whatever else is held; with the
/// kitty protocol each arrow's sequence starts with `ESC [` and ends with that same
/// letter. So the four arrows never send the same bytes.
pub proof fn law_arrow_keys(m: Modifiers, flags: u32)
    ensures
        flags == 0 && !m.alt && !m.control ==> {
            &&& named_key_bytes(NamedKey::ArrowUp, m, flags) == Some(seq![0x1bu8, 0x5b, 0x41])
            &&& named_key_bytes(NamedKey::ArrowDown, m, flags) == Some(seq![0x1bu8, 0x5b, 0x42])
            &&& named_key_bytes(NamedKey::ArrowRight, m, flags) == Some(seq![0x1bu8, 0x5b, 0x43])
            &&& named_key_bytes(NamedKey::ArrowLeft, m, flags) == Some(seq![0x1bu8, 0x5b, 0x44])
        },
        flags == 0 ==> named_key_bytes(NamedKey::ArrowUp, m, flags) == Some(seq![0x1bu8, 0x5b, 0x41]),
        flags == 0 ==> named_key_bytes(NamedKey::ArrowDown, m, flags) == Some(seq![0x1bu8, 0x5b, 0x42]),
        flags != 0 ==> {
            &&& named_key_bytes(NamedKey::ArrowUp, m, flags) matches Some(b) && b.len() >= 3 && b[0] == 0x1b && b[1] == 0x5b && b.last() == 0x41
            &&& named_key_bytes(NamedKey::ArrowDown, m, flags) matches Some(b) && b.len() >= 3 && b[0] == 0x1b && b[1] == 0x5b && b.last() == 0x42
            &&& named_key_bytes(NamedKey::ArrowRight, m, flags) matches Some(b) && b.len() >= 3 && b[0] == 0x1b && b[1] == 0x5b && b.last() == 0x43
            &&& named_key_bytes(NamedKey::ArrowLeft, m, flags) matches Some(b) && b.len() >= 3 && b[0] == 0x1b && b[1] == 0x5b && b.last() == 0x44
        },
        named_key_bytes(NamedKey::ArrowUp, m, flags) != named_key_bytes(NamedKey::ArrowDown, m, flags),
        named_key_bytes(NamedKey::ArrowLeft, m, flags) != named_key_bytes(NamedKey::ArrowRight, m, flags),
{
    if flags != 0 {
        lemma_csi_letter_shape(0x41, m);
        lemma_csi_letter_shape(0x42, m);
        lemma_csi_letter_shape(0x43, m);
        lemma_csi_letter_shape(0x44, m);
    } else {
        assert(seq![0x05u8][0] != seq![0x01u8][0]);
        assert(seq![0x1bu8, 0x66][1] != seq![0x1bu8, 0x62][1]);
        assert(seq![0x1bu8, 0x5b, 0x43][2] != seq![0x1bu8, 0x5b, 0x44][2]);
    }
}

proof fn lemma_csi_letter_shape(letter: u8, m: Modifiers)
    ensures
        csi_letter(letter, m).len() >= 3,
        csi_letter(letter, m)[0] == 0x1b,
        csi_letter(letter, m)[1] == 0x5b,
        csi_letter(letter, m).last() == letter,
{
    if mod_bits(m) != 0 {
        let a = seq![0x1bu8, 0x5b, 0x31, 0x3b] + decimal(mod_bits(m) + 1);
        assert(csi_letter(letter, m) == a.push(letter)) by {
            assert(a + seq![letter] =~= a.push(letter));
        }
    }
}
} // verus!
