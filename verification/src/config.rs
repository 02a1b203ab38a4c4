//! User settings: keybinding strings, hex colours, the bell setting and the list of
//! shells offered.
use vstd::prelude::*;
use vstd::utf8::{encode_utf8, is_char_boundary};
use crate::text::{chars_equal, chars_of, chars_range, first_index, find_char_from, lines_of};

verus! {

/// General settings.
pub struct GeneralConfig {
    pub editor: String,
    pub bell: BellType,
    pub shells: Option<Vec<String>>,
}

/// Status bar settings.
pub struct StatusBarConfig {
    pub visible: bool,
    pub date_format: String,
    pub time_format: String,
}

/// Theme colours, as hex strings.
pub struct ThemeColorsConfig {
    pub background: String,
    pub foreground: String,
    pub accent: String,
    pub foreground_muted: String,
    pub border: String,
    pub cursor: String,
}

/// Keybindings as written in the settings file, such as `ctrl+shift+t`.
pub struct KeybindingsConfig {
    pub new_tab: String,
    pub close_tab: String,
    pub next_tab: String,
    pub prev_tab: String,
    pub paste: String,
    pub copy: String,
}

/// What the bell does.
#[derive(Clone, Copy, Debug, PartialEq, Eq, Structural)]
pub enum BellType {
    Off,
    Audio,
    Blink,
}

impl BellType {
    /// The name shown in the settings screen.
    pub fn label(&self) -> (s: String)
        ensures
            s@ == match self {
                BellType::Off => seq!['N', 'o', 'n', 'e'],
                BellType::Audio => seq!['A', 'u', 'd', 'i', 'o'],
                BellType::Blink => seq!['B', 'l', 'i', 'n', 'k'],
            },
    {
        let s = match self {
            BellType::Off => String::from_str("None"),
            BellType::Audio => String::from_str("Audio"),
            BellType::Blink => String::from_str("Blink"),
        };
        proof {
            reveal_strlit("None");
            reveal_strlit("Audio");
            reveal_strlit("Blink");
        }
        s
    }
}

/// The key of a keybinding.
#[derive(Clone, Copy, Debug, PartialEq, Eq, Structural)]
pub enum KeyId {
    Char(char),
    Tab,
}

/// A keybinding: modifiers and key.
#[derive(Clone, Copy, Debug, PartialEq, Eq, Structural)]
pub struct ParsedKeybinding {
    pub ctrl: bool,
    pub shift: bool,
    pub alt: bool,
    pub meta: bool,
    pub key: KeyId,
}

/// All keybindings of the application.
#[derive(Clone, Copy, Debug, PartialEq, Eq, Structural)]
pub struct ParsedKeybindings {
    pub new_tab: ParsedKeybinding,
    pub close_tab: ParsedKeybinding,
    pub next_tab: ParsedKeybinding,
    pub prev_tab: ParsedKeybinding,
    pub paste: ParsedKeybinding,
    pub copy: ParsedKeybinding,
}

/// A keybinding string whose key part is neither `tab` nor a single ASCII character.
#[derive(Debug, PartialEq)]
pub struct KeybindingError {
    pub key: String,
}

/// A keybinding of the settings that does not parse, with the setting's name.
#[derive(Debug, PartialEq)]
pub struct BindingError {
    pub name: String,
    pub error: KeybindingError,
}

/// ASCII letters lowered, everything else kept.
pub open spec fn lower_char(c: char) -> char {
    if 'A' <= c && c <= 'Z' { ((c as u8) + 32) as char } else { c }
}

pub open spec fn ascii_lower(s: Seq<char>) -> Seq<char> {
    s.map_values(|c: char| lower_char(c))
}

/// Modifiers seen so far and the last part that is not a modifier.
pub ghost struct KbScan {
    pub ctrl: bool,
    pub shift: bool,
    pub alt: bool,
    pub meta: bool,
    pub key: Seq<char>,
}

/// One `+`-separated part: a modifier name (any case) sets its modifier, anything else
/// becomes the key part.
pub open spec fn scan_part(a: KbScan, p: Seq<char>) -> KbScan {
    let l = ascii_lower(p);
    if l == seq!['c', 't', 'r', 'l'] {
        KbScan { ctrl: true, ..a }
    } else if l == seq!['s', 'h', 'i', 'f', 't'] {
        KbScan { shift: true, ..a }
    } else if l == seq!['a', 'l', 't'] || l == seq!['o', 'p', 't', 'i', 'o', 'n'] {
        KbScan { alt: true, ..a }
    } else if l == seq!['c', 'm', 'd'] || l == seq!['c', 'o', 'm', 'm', 'a', 'n', 'd'] || l == seq!['m', 'e', 't', 'a']
        || l == seq!['s', 'u', 'p', 'e', 'r'] {
        KbScan { meta: true, ..a }
    } else {
        KbScan { key: p, ..a }
    }
}

pub open spec fn scan_parts(a: KbScan, s: Seq<char>) -> KbScan
    decreases s.len(),
{
    match first_index(s, '+') {
        Some(i) => if i < s.len() { scan_parts(scan_part(a, s.take(i as int)), s.skip(i + 1int)) } else { a },
        None => scan_part(a, s),
    }
}

/// A keybinding string: `+`-separated modifiers and one key, `tab` or a single ASCII
/// character (lowered); otherwise an error naming the key part.
pub open spec fn parse_kb(s: Seq<char>) -> Result<ParsedKeybinding, Seq<char>> {
    let a = scan_parts(KbScan { ctrl: false, shift: false, alt: false, meta: false, key: Seq::empty() }, s);
    let low = ascii_lower(a.key);
    if low == seq!['t', 'a', 'b'] {
        Ok(ParsedKeybinding { ctrl: a.ctrl, shift: a.shift, alt: a.alt, meta: a.meta, key: KeyId::Tab })
    } else if low.len() == 1 && (low[0] as u32) < 0x80 {
        Ok(ParsedKeybinding { ctrl: a.ctrl, shift: a.shift, alt: a.alt, meta: a.meta, key: KeyId::Char(low[0]) })
    } else {
        Err(a.key)
    }
}

fn lower_chars(v: &[char], from: usize, to: usize) -> (out: Vec<char>)
    requires
        from <= to <= v@.len(),
    ensures
        out@ == ascii_lower(v@.subrange(from as int, to as int)),
{
    let mut out: Vec<char> = Vec::new();
    let mut i = from;
    while i < to
        invariant
            from <= i <= to <= v@.len(),
            out@ == ascii_lower(v@.subrange(from as int, i as int)),
        decreases to - i,
    {
        let c = v[i];
        let l = if 'A' <= c && c <= 'Z' { ((c as u8) + 32) as char } else { c };
        out.push(l);
        i = i + 1;
        assert(out@ =~= ascii_lower(v@.subrange(from as int, i as int)));
    }
    out
}

fn is_word(v: &Vec<char>, w: &[char]) -> (r: bool)
    ensures
        r == (v@ == w@),
{
    chars_equal(v.as_slice(), w)
}

/// Parse one `+`-separated part (see [`scan_part`]).
fn scan_one(ctrl: &mut bool, shift: &mut bool, alt: &mut bool, meta: &mut bool, key: &mut (usize, usize), v: &[char], from: usize, to: usize)
    requires
        from <= to <= v@.len(),
    ensures
        ({
            let a = KbScan { ctrl: *old(ctrl), shift: *old(shift), alt: *old(alt), meta: *old(meta), key: v@.subrange(old(key).0 as int, old(key).1 as int) };
            let b = scan_part(a, v@.subrange(from as int, to as int));
            b == KbScan { ctrl: *final(ctrl), shift: *final(shift), alt: *final(alt), meta: *final(meta), key: v@.subrange(final(key).0 as int, final(key).1 as int) }
        }),
        final(key).0 <= final(key).1 <= v@.len() || *final(key) == *old(key),
{
    let l = lower_chars(v, from, to);
    let w_ctrl = ['c', 't', 'r', 'l'];
    let w_shift = ['s', 'h', 'i', 'f', 't'];
    let w_alt = ['a', 'l', 't'];
    let w_option = ['o', 'p', 't', 'i', 'o', 'n'];
    let w_cmd = ['c', 'm', 'd'];
    let w_command = ['c', 'o', 'm', 'm', 'a', 'n', 'd'];
    let w_meta = ['m', 'e', 't', 'a'];
    let w_super = ['s', 'u', 'p', 'e', 'r'];
    assert(w_ctrl@ =~= seq!['c', 't', 'r', 'l']);
    assert(w_shift@ =~= seq!['s', 'h', 'i', 'f', 't']);
    assert(w_alt@ =~= seq!['a', 'l', 't']);
    assert(w_option@ =~= seq!['o', 'p', 't', 'i', 'o', 'n']);
    assert(w_cmd@ =~= seq!['c', 'm', 'd']);
    assert(w_command@ =~= seq!['c', 'o', 'm', 'm', 'a', 'n', 'd']);
    assert(w_meta@ =~= seq!['m', 'e', 't', 'a']);
    assert(w_super@ =~= seq!['s', 'u', 'p', 'e', 'r']);
    if is_word(&l, &w_ctrl) {
        *ctrl = true;
    } else if is_word(&l, &w_shift) {
        *shift = true;
    } else if is_word(&l, &w_alt) || is_word(&l, &w_option) {
        *alt = true;
    } else if is_word(&l, &w_cmd) || is_word(&l, &w_command) || is_word(&l, &w_meta) || is_word(&l, &w_super) {
        *meta = true;
    } else {
        *key = (from, to);
    }
}

/// Parse a keybinding string (see [`parse_kb`]).
pub fn parse_keybinding(s: &str) -> (r: Result<ParsedKeybinding, KeybindingError>)
    ensures
        match r {
            Ok(kb) => parse_kb(s@) == Ok::<ParsedKeybinding, Seq<char>>(kb),
            Err(e) => parse_kb(s@) == Err::<ParsedKeybinding, Seq<char>>(e.key@),
        },
{
    let v = chars_of(s);
    let n = v.len();
    let mut ctrl = false;
    let mut shift = false;
    let mut alt = false;
    let mut meta = false;
    let mut key: (usize, usize) = (0, 0);
    let ghost init = KbScan { ctrl: false, shift: false, alt: false, meta: false, key: Seq::empty() };
    assert(v@.subrange(0, 0) =~= Seq::<char>::empty());
    assert(v@.subrange(0, n as int) =~= v@);
    let mut start: usize = 0;
    loop
        invariant
            start <= n,
            n == v@.len(),
            key.0 <= key.1 <= n,
            scan_parts(KbScan { ctrl, shift, alt, meta, key: v@.subrange(key.0 as int, key.1 as int) }, v@.subrange(start as int, n as int))
                == scan_parts(init, v@),
        ensures
            (KbScan { ctrl, shift, alt, meta, key: v@.subrange(key.0 as int, key.1 as int) }) == scan_parts(init, v@),
            key.0 <= key.1 <= n,
        decreases n - start,
    {
        let ghost seg = v@.subrange(start as int, n as int);
        match find_char_from(v.as_slice(), start, '+') {
            Some(i) => {
                proof {
                    assert(v@.skip(start as int) =~= seg);
                    assert(seg.take(i - start) =~= v@.subrange(start as int, i as int));
                    assert(seg.skip(i - start + 1) =~= v@.subrange(i + 1, n as int));
                }
                scan_one(&mut ctrl, &mut shift, &mut alt, &mut meta, &mut key, v.as_slice(), start, i);
                start = i + 1;
            },
            None => {
                proof {
                    assert(v@.skip(start as int) =~= seg);
                }
                scan_one(&mut ctrl, &mut shift, &mut alt, &mut meta, &mut key, v.as_slice(), start, n);
                break;
            },
        }
    }
    let low = lower_chars(v.as_slice(), key.0, key.1);
    let w_tab = ['t', 'a', 'b'];
    assert(w_tab@ =~= seq!['t', 'a', 'b']);
    if is_word(&low, &w_tab) {
        Ok(ParsedKeybinding { ctrl, shift, alt, meta, key: KeyId::Tab })
    } else if low.len() == 1 && (low[0] as u32) < 0x80 {
        Ok(ParsedKeybinding { ctrl, shift, alt, meta, key: KeyId::Char(low[0]) })
    } else {
        Err(KeybindingError { key: crate::text::string_of_chars(v.as_slice(), key.0, key.1) })
    }
}


pub open spec fn strings_view(v: Seq<String>) -> Seq<Seq<char>> {
    v.map_values(|s: String| s@)
}

/// A copy of a list of strings.
pub fn clone_strings(v: &Vec<String>) -> (out: Vec<String>)
    ensures
        strings_view(out@) == strings_view(v@),
{
    let mut out: Vec<String> = Vec::new();
    let mut i: usize = 0;
    while i < v.len()
        invariant
            i <= v@.len(),
            out@.len() == i,
            forall|k: int| 0 <= k < i ==> #[trigger] out@[k]@ == v@[k]@,
        decreases v@.len() - i,
    {
        let r: &String = &v[i];
        let c = r.clone();
        out.push(c);
        i = i + 1;
    }
    assert(strings_view(out@) =~= strings_view(v@));
    out
}

pub open spec fn name_new_tab() -> Seq<char> { seq!['n', 'e', 'w', '-', 't', 'a', 'b'] }
pub open spec fn name_close_tab() -> Seq<char> { seq!['c', 'l', 'o', 's', 'e', '-', 't', 'a', 'b'] }
pub open spec fn name_next_tab() -> Seq<char> { seq!['n', 'e', 'x', 't', '-', 't', 'a', 'b'] }
pub open spec fn name_prev_tab() -> Seq<char> { seq!['p', 'r', 'e', 'v', '-', 't', 'a', 'b'] }
pub open spec fn name_paste() -> Seq<char> { seq!['p', 'a', 's', 't', 'e'] }
pub open spec fn name_copy() -> Seq<char> { seq!['c', 'o', 'p', 'y'] }

/// All keybindings parsed in the order of the settings file; the first that fails is
/// reported with its setting name and key part.
pub open spec fn build_kbs(c: KeybindingsConfig) -> Result<ParsedKeybindings, (Seq<char>, Seq<char>)> {
    match (parse_kb(c.new_tab@), parse_kb(c.close_tab@), parse_kb(c.next_tab@), parse_kb(c.prev_tab@), parse_kb(c.paste@), parse_kb(c.copy@)) {
        (Err(k), _, _, _, _, _) => Err((name_new_tab(), k)),
        (Ok(_), Err(k), _, _, _, _) => Err((name_close_tab(), k)),
        (Ok(_), Ok(_), Err(k), _, _, _) => Err((name_next_tab(), k)),
        (Ok(_), Ok(_), Ok(_), Err(k), _, _) => Err((name_prev_tab(), k)),
        (Ok(_), Ok(_), Ok(_), Ok(_), Err(k), _) => Err((name_paste(), k)),
        (Ok(_), Ok(_), Ok(_), Ok(_), Ok(_), Err(k)) => Err((name_copy(), k)),
        (Ok(a), Ok(b), Ok(d), Ok(e), Ok(f), Ok(g)) => Ok(ParsedKeybindings { new_tab: a, close_tab: b, next_tab: d, prev_tab: e, paste: f, copy: g }),
    }
}

pub open spec fn binding_result(r: Result<ParsedKeybindings, BindingError>) -> Result<ParsedKeybindings, (Seq<char>, Seq<char>)> {
    match r {
        Ok(k) => Ok(k),
        Err(e) => Err((e.name@, e.error.key@)),
    }
}

fn named(name: &str, e: KeybindingError) -> (out: BindingError)
    ensures
        out.name@ == name@,
        out.error.key@ == e.key@,
{
    BindingError { name: name.to_string(), error: e }
}

/// Parse all keybindings (see [`build_kbs`]).
pub fn build_parsed_keybindings(c: &KeybindingsConfig) -> (r: Result<ParsedKeybindings, BindingError>)
    ensures
        binding_result(r) == build_kbs(*c),
{
    proof {
        reveal_strlit("new-tab");
        assert("new-tab"@ =~= name_new_tab());
        reveal_strlit("close-tab");
        assert("close-tab"@ =~= name_close_tab());
        reveal_strlit("next-tab");
        assert("next-tab"@ =~= name_next_tab());
        reveal_strlit("prev-tab");
        assert("prev-tab"@ =~= name_prev_tab());
        reveal_strlit("paste");
        assert("paste"@ =~= name_paste());
        reveal_strlit("copy");
        assert("copy"@ =~= name_copy());
    }
    let a = match parse_keybinding(c.new_tab.as_str()) {
        Ok(k) => k,
        Err(e) => return Err(named("new-tab", e)),
    };
    let b = match parse_keybinding(c.close_tab.as_str()) {
        Ok(k) => k,
        Err(e) => return Err(named("close-tab", e)),
    };
    let d = match parse_keybinding(c.next_tab.as_str()) {
        Ok(k) => k,
        Err(e) => return Err(named("next-tab", e)),
    };
    let e1 = match parse_keybinding(c.prev_tab.as_str()) {
        Ok(k) => k,
        Err(e) => return Err(named("prev-tab", e)),
    };
    let f = match parse_keybinding(c.paste.as_str()) {
        Ok(k) => k,
        Err(e) => return Err(named("paste", e)),
    };
    let g = match parse_keybinding(c.copy.as_str()) {
        Ok(k) => k,
        Err(e) => return Err(named("copy", e)),
    };
    Ok(ParsedKeybindings { new_tab: a, close_tab: b, next_tab: d, prev_tab: e1, paste: f, copy: g })
}

/// The settings in force: the general settings and the parsed keybindings, each set
/// once by [`ConfigStore::init`].
pub struct ConfigStore {
    pub general: Option<GeneralConfig>,
    pub keybindings: Option<ParsedKeybindings>,
}

impl ConfigStore {
    pub fn new() -> (s: ConfigStore)
        ensures
            s.general is None,
            s.keybindings is None,
    {
        ConfigStore { general: None, keybindings: None }
    }

    /// Take the settings read from the settings file: the keybindings are parsed first,
    /// and nothing is stored when one fails; settings already stored stay.
    pub fn init(&mut self, general: GeneralConfig, kb: &KeybindingsConfig) -> (r: Result<(), BindingError>)
        ensures
            match build_kbs(*kb) {
                Ok(p) => r is Ok
                    && final(self).keybindings == (match old(self).keybindings { Some(q) => Some(q), None => Some(p) })
                    && (old(self).general is Some ==> final(self).general == old(self).general)
                    && (old(self).general is None ==> final(self).general == Some(general)),
                Err(e) => (r matches Err(b) && (b.name@, b.error.key@) == e)
                    && final(self).general == old(self).general && final(self).keybindings == old(self).keybindings,
            },
    {
        let parsed = match build_parsed_keybindings(kb) {
            Ok(p) => p,
            Err(e) => return Err(e),
        };
        if self.general.is_none() {
            self.general = Some(general);
        }
        if self.keybindings.is_none() {
            self.keybindings = Some(parsed);
        }
        Ok(())
    }

    /// The keybindings in force.
    pub fn keybindings(&self) -> (k: &ParsedKeybindings)
        requires
            self.keybindings is Some,
        ensures
            Some(*k) == self.keybindings,
    {
        match &self.keybindings {
            Some(k) => k,
            None => {
                assert(false);
                unreached()
            },
        }
    }

    /// Replace the keybindings in force, once they have been set.
    pub fn update_keybindings(&mut self, new: ParsedKeybindings)
        ensures
            final(self).keybindings == (if old(self).keybindings is Some { Some(new) } else { None }),
            final(self).general == old(self).general,
    {
        if self.keybindings.is_some() {
            self.keybindings = Some(new);
        }
    }

    /// Parse the keybindings again and put them in force.
    pub fn reload_parsed_keybindings(&mut self, kb: &KeybindingsConfig) -> (r: Result<(), BindingError>)
        ensures
            match build_kbs(*kb) {
                Ok(p) => r is Ok && final(self).keybindings == (if old(self).keybindings is Some { Some(p) } else { None }),
                Err(e) => (r matches Err(b) && (b.name@, b.error.key@) == e) && final(self).keybindings == old(self).keybindings,
            },
            final(self).general == old(self).general,
    {
        let parsed = match build_parsed_keybindings(kb) {
            Ok(p) => p,
            Err(e) => return Err(e),
        };
        self.update_keybindings(parsed);
        Ok(())
    }

    /// The shells offered: those listed in the settings when there are any, else those
    /// detected on the system.
    pub fn available_shells(&self, detected: Vec<String>) -> (out: Vec<String>)
        requires
            self.general is Some,
        ensures
            strings_view(out@) == offered_shells(self.general.unwrap().shells, strings_view(detected@)),
    {
        match &self.general {
            Some(g) => derive_available_shells(g, detected),
            None => {
                assert(false);
                unreached()
            },
        }
    }
}

/// The configured shells when the list is present and not empty, else `detected`.
pub open spec fn offered_shells(configured: Option<Vec<String>>, detected: Seq<Seq<char>>) -> Seq<Seq<char>> {
    match configured {
        Some(v) => if v@.len() > 0 { strings_view(v@) } else { detected },
        None => detected,
    }
}

/// The shells offered by the given settings (see [`offered_shells`]).
pub fn derive_available_shells(settings: &GeneralConfig, detected: Vec<String>) -> (out: Vec<String>)
    ensures
        strings_view(out@) == offered_shells(settings.shells, strings_view(detected@)),
{
    match &settings.shells {
        Some(v) => {
            if v.len() > 0 {
                return clone_strings(v);
            }
        },
        None => {},
    }
    detected
}

/// The entries of a shells file: trimmed lines that are neither empty nor comments.
pub open spec fn shell_entries(lines: Seq<Seq<char>>) -> Seq<Seq<char>>
    decreases lines.len(),
{
    if lines.len() == 0 {
        Seq::empty()
    } else {
        let rest = shell_entries(lines.drop_first());
        let t = crate::text::trim(lines[0]);
        if t.len() > 0 && t[0] != '#' { seq![t] + rest } else { rest }
    }
}

/// The shells of the system: the entries of `/etc/shells` when it could be read and has
/// any, else the login shell from `$SHELL`, else `bash`.
pub open spec fn detected_shells(etc_shells: Option<Seq<char>>, shell_env: Option<Seq<char>>) -> Seq<Seq<char>> {
    let listed = match etc_shells {
        Some(c) => shell_entries(lines_of(c)),
        None => Seq::empty(),
    };
    if listed.len() > 0 {
        listed
    } else {
        seq![match shell_env { Some(s) => s, None => seq!['b', 'a', 's', 'h'] }]
    }
}

/// The settings a fresh install starts from: bell blinks, status bar shown, the bundled
/// FiraCode Nerd Font, the interface's own dark theme with the green accent, and the
/// tab, copy and paste keys on Ctrl+Shift.
pub open spec fn default_settings() -> Seq<char> {
    "[general]\neditor = \"vim\"\nbell = \"blink\"\n\n[status-bar]\nvisible = true\ndate-format = \"%Y-%m-%d\"\ntime-format = \"%H:%M:%S\"\n\n[theme.font]\nsize = 14.0\nfamily = \"FiraCode Nerd Font\"\n\n[theme.colors]\nbackground = \"#222222\"\nforeground = \"#e5e5e5\"\naccent = \"#3ecf8e\"\nforeground-muted = \"#666666\"\nborder = \"#ffffff12\"\ncursor = \"#3ecf8e\"\n\n[keybindings]\nnew-tab = \"ctrl+shift+t\"\nclose-tab = \"ctrl+shift+w\"\nnext-tab = \"ctrl+tab\"\nprev-tab = \"ctrl+shift+tab\"\npaste = \"ctrl+shift+v\"\ncopy = \"ctrl+shift+c\"\n"@
}

/// The text of the default settings file (see [`default_settings`]), written where no
/// settings file exists or the one there does not read.
pub fn default_config_str() -> (s: &'static str)
    ensures
        s@ == default_settings(),
{
    let s = "[general]\neditor = \"vim\"\nbell = \"blink\"\n\n[status-bar]\nvisible = true\ndate-format = \"%Y-%m-%d\"\ntime-format = \"%H:%M:%S\"\n\n[theme.font]\nsize = 14.0\nfamily = \"FiraCode Nerd Font\"\n\n[theme.colors]\nbackground = \"#222222\"\nforeground = \"#e5e5e5\"\naccent = \"#3ecf8e\"\nforeground-muted = \"#666666\"\nborder = \"#ffffff12\"\ncursor = \"#3ecf8e\"\n\n[keybindings]\nnew-tab = \"ctrl+shift+t\"\nclose-tab = \"ctrl+shift+w\"\nnext-tab = \"ctrl+tab\"\nprev-tab = \"ctrl+shift+tab\"\npaste = \"ctrl+shift+v\"\ncopy = \"ctrl+shift+c\"\n";
    s
}

/// The shells of a Windows system: PowerShell, PowerShell 7 (`pwsh`) where it is
/// installed, and the command prompt.
pub open spec fn windows_shells(has_pwsh: bool) -> Seq<Seq<char>> {
    if has_pwsh {
        seq!["powershell"@, "pwsh"@, "cmd"@]
    } else {
        seq!["powershell"@, "cmd"@]
    }
}

/// The shells detected on Windows (see [`windows_shells`]); `has_pwsh` is whether
/// `pwsh` was found on the path.
pub fn detect_windows_shells(has_pwsh: bool) -> (out: Vec<String>)
    ensures
        strings_view(out@) == windows_shells(has_pwsh),
        out@.len() > 0,
{
    let mut out: Vec<String> = Vec::new();
    out.push("powershell".to_string());
    if has_pwsh {
        out.push("pwsh".to_string());
    }
    out.push("cmd".to_string());
    proof {
        reveal_strlit("powershell");
        reveal_strlit("pwsh");
        reveal_strlit("cmd");
    }
    assert(strings_view(out@) =~= windows_shells(has_pwsh));
    out
}

/// The terminal always has a shell to offer: whatever the settings list and whatever the
/// system reports (a Unix shells file and `$SHELL`, or the Windows shells), the shells offered are not empty, and they are the settings' list when
/// that is not empty.
pub proof fn law_shells_offered(configured: Option<Vec<String>>, etc_shells: Option<Seq<char>>, shell_env: Option<Seq<char>>)
    ensures
        offered_shells(configured, detected_shells(etc_shells, shell_env)).len() > 0,
        forall|has_pwsh: bool| #[trigger] offered_shells(configured, windows_shells(has_pwsh)).len() > 0,
        match configured {
            Some(v) => v@.len() > 0 ==> offered_shells(configured, detected_shells(etc_shells, shell_env)) == strings_view(v@),
            None => true,
        },
{
    match configured {
        Some(v) => {
            if v@.len() > 0 {
                assert(strings_view(v@).len() == v@.len());
            }
        },
        None => {},
    }
}

fn shell_entries_of(text: &str) -> (out: Vec<String>)
    ensures
        strings_view(out@) == shell_entries(lines_of(text@)),
{
    let v = chars_of(text);
    let n = v.len();
    let mut out: Vec<String> = Vec::new();
    let mut start: usize = 0;
    assert(v@.subrange(0, n as int) =~= v@);
    while start < n
        invariant
            start <= n,
            n == v@.len(),
            strings_view(out@) + shell_entries(lines_of(v@.subrange(start as int, n as int))) == shell_entries(lines_of(v@)),
        decreases n - start,
    {
        let ghost seg = v@.subrange(start as int, n as int);
        assert(v@.skip(start as int) =~= seg);
        let (end, next) = match find_char_from(v.as_slice(), start, '\n') {
            Some(i) => {
                let e = if i > start && v[i - 1] == '\r' { i - 1 } else { i };
                proof {
                    let line = seg.take(i - start);
                    assert(line =~= v@.subrange(start as int, i as int));
                    if i > start && v@[i - 1] == '\r' {
                        assert(line.drop_last() =~= v@.subrange(start as int, e as int));
                    }
                    assert(seg.skip(i - start + 1) =~= v@.subrange(i + 1, n as int));
                }
                (e, i + 1)
            },
            None => (n, n),
        };
        let (a, b) = crate::text::trim_bounds(v.as_slice(), start, end);
        let ghost before = strings_view(out@);
        let ghost line = v@.subrange(start as int, end as int);
        if b > a && v[a] != '#' {
            out.push(crate::text::string_of_chars(v.as_slice(), a, b));
            proof {
                assert(strings_view(out@) =~= before.push(v@.subrange(a as int, b as int)));
            }
        }
        proof {
            let ls = lines_of(seg);
            assert(ls[0] == line);
            assert(ls.drop_first() == lines_of(v@.subrange(next as int, n as int))) by {
                if next == n {
                    assert(v@.subrange(next as int, n as int) =~= Seq::<char>::empty());
                }
            }
            assert(strings_view(out@) + shell_entries(lines_of(v@.subrange(next as int, n as int)))
                =~= before + shell_entries(lines_of(seg)));
        }
        start = next;
    }
    assert(v@.subrange(n as int, n as int) =~= Seq::<char>::empty());
    assert(strings_view(out@) + Seq::<Seq<char>>::empty() =~= strings_view(out@));
    out
}

/// The shells of the system from the contents of `/etc/shells` (if it could be read) and
/// of `$SHELL` (see [`detected_shells`]).
pub fn detect_shells(etc_shells: Option<String>, shell_env: Option<String>) -> (out: Vec<String>)
    ensures
        strings_view(out@) == detected_shells(
            match etc_shells { Some(s) => Some(s@), None => None },
            match shell_env { Some(s) => Some(s@), None => None },
        ),
{
    let listed = match &etc_shells {
        Some(c) => shell_entries_of(c.as_str()),
        None => Vec::new(),
    };
    assert(etc_shells is None ==> strings_view(listed@) =~= Seq::<Seq<char>>::empty());
    if listed.len() > 0 {
        return listed;
    }
    let fallback = match shell_env {
        Some(s) => s,
        None => {
            let b = String::from_str("bash");
            proof {
                reveal_strlit("bash");
                assert(b@ =~= seq!['b', 'a', 's', 'h']);
            }
            b
        },
    };
    let out = vec![fallback];
    assert(strings_view(out@) =~= seq![fallback@]);
    out
}

/// An opaque or translucent colour with 8-bit channels.
#[derive(Clone, Copy, Debug, PartialEq, Eq, Structural)]
pub struct Rgba8 {
    pub r: u8,
    pub g: u8,
    pub b: u8,
    pub a: u8,
}

/// Why a hex colour was refused.
#[derive(Clone, Copy, Debug, PartialEq, Eq, Structural)]
pub enum HexColorError {
    /// A two-digit component is not a hexadecimal number.
    BadComponent,
    /// Not 6 or 8 digits after the leading `#`s.
    BadLength,
}

pub open spec fn hex_val(b: u8) -> Option<u8> {
    if 0x30 <= b <= 0x39 {
        Some((b - 0x30) as u8)
    } else if 0x61 <= b <= 0x66 {
        Some((b - 0x61 + 10) as u8)
    } else if 0x41 <= b <= 0x46 {
        Some((b - 0x41 + 10) as u8)
    } else {
        None
    }
}

/// Two bytes read as a hexadecimal `u8` the way `u8::from_str_radix(.., 16)` reads
/// them: two digits, or `+` and one digit.
pub open spec fn hex_pair(p: Seq<u8>) -> Option<u8> {
    if p[0] == 0x2b {
        hex_val(p[1])
    } else {
        match (hex_val(p[0]), hex_val(p[1])) {
            (Some(a), Some(b)) => Some((a * 16 + b) as u8),
            _ => None,
        }
    }
}

/// The number of `#` bytes at the start.
pub open spec fn leading_hashes(b: Seq<u8>) -> nat
    decreases b.len(),
{
    if b.len() > 0 && b[0] == 0x23 { 1 + leading_hashes(b.drop_first()) } else { 0 }
}

/// The bytes of a colour string after its leading `#`s.
pub open spec fn hex_digits(s: Seq<char>) -> Seq<u8> {
    let b = encode_utf8(s);
    b.skip(leading_hashes(b) as int)
}

pub open spec fn pair_at(h: Seq<u8>, i: int) -> Option<u8> {
    hex_pair(h.subrange(i, i + 2))
}

/// A colour written `#rrggbb` or `#rrggbbaa` (any number of leading `#`s, digits in
/// either case); without alpha the colour is opaque. The components are read in order
/// and the first that is not hexadecimal is the error.
pub open spec fn parse_hex(s: Seq<char>) -> Result<Rgba8, HexColorError> {
    let h = hex_digits(s);
    if h.len() == 6 || h.len() == 8 {
        match (pair_at(h, 0), pair_at(h, 2), pair_at(h, 4)) {
            (Some(r), Some(g), Some(b)) => {
                if h.len() == 6 {
                    Ok(Rgba8 { r, g, b, a: 255 })
                } else {
                    match pair_at(h, 6) {
                        Some(a) => Ok(Rgba8 { r, g, b, a }),
                        None => Err(HexColorError::BadComponent),
                    }
                }
            },
            _ => Err(HexColorError::BadComponent),
        }
    } else {
        Err(HexColorError::BadLength)
    }
}

/// The components are cut out of the string at byte offsets, which must fall between
/// characters for each cut that is reached.
pub open spec fn parse_hex_ok(s: Seq<char>) -> bool {
    let b = encode_utf8(s);
    let k = leading_hashes(b) as int;
    let h = b.skip(k);
    (h.len() == 6 || h.len() == 8) ==> {
        &&& is_char_boundary(b, k + 2)
        &&& pair_at(h, 0) is Some ==> is_char_boundary(b, k + 4)
        &&& (h.len() == 8 && pair_at(h, 0) is Some && pair_at(h, 2) is Some) ==> is_char_boundary(b, k + 6)
    }
}

fn hex_val_exec(b: u8) -> (r: Option<u8>)
    ensures
        r == hex_val(b),
{
    if 0x30 <= b && b <= 0x39 {
        Some(b - 0x30)
    } else if 0x61 <= b && b <= 0x66 {
        Some(b - 0x61 + 10)
    } else if 0x41 <= b && b <= 0x46 {
        Some(b - 0x41 + 10)
    } else {
        None
    }
}

fn hex_pair_at(v: &[u8], i: usize) -> (r: Option<u8>)
    requires
        i + 2 <= v@.len(),
    ensures
        r == hex_pair(v@.subrange(i as int, i + 2)),
{
    let ghost p = v@.subrange(i as int, i + 2);
    assert(p[0] == v@[i as int] && p[1] == v@[i + 1]);
    if v[i] == 0x2b {
        hex_val_exec(v[i + 1])
    } else {
        match (hex_val_exec(v[i]), hex_val_exec(v[i + 1])) {
            (Some(a), Some(b)) => Some(a * 16 + b),
            _ => None,
        }
    }
}

fn skip_hashes(b: &[u8]) -> (k: usize)
    ensures
        k as nat == leading_hashes(b@),
        k <= b@.len(),
{
    let mut k: usize = 0;
    assert(b@.skip(0) =~= b@);
    while k < b.len() && b[k] == 0x23
        invariant
            k <= b@.len(),
            leading_hashes(b@) == k + leading_hashes(b@.skip(k as int)),
        decreases b@.len() - k,
    {
        assert(b@.skip(k as int).drop_first() =~= b@.skip(k + 1));
        k = k + 1;
    }
    k
}

/// Parse a hex colour (see [`parse_hex`]).
pub fn parse_hex_color(hex: &str) -> (r: Result<Rgba8, HexColorError>)
    requires
        parse_hex_ok(hex@),
    ensures
        r == parse_hex(hex@),
{
    let b = hex.as_bytes();
    let n = b.len();
    let k = skip_hashes(b);
    let ghost h = b@.skip(k as int);
    let len = n - k;
    proof {
        assert forall|i: int| 0 <= i && i + 2 <= h.len() implies #[trigger] h.subrange(i, i + 2) =~= b@.subrange(k + i, k + i + 2) by {}
    }
    if len != 6 && len != 8 {
        return Err(HexColorError::BadLength);
    }
    assert(h.subrange(0, 2) =~= b@.subrange(k as int, k + 2));
    assert(h.subrange(2, 4) =~= b@.subrange(k + 2, k + 4));
    assert(h.subrange(4, 6) =~= b@.subrange(k + 4, k + 6));
    let r = match hex_pair_at(b, k) {
        Some(x) => x,
        None => return Err(HexColorError::BadComponent),
    };
    let g = match hex_pair_at(b, k + 2) {
        Some(x) => x,
        None => return Err(HexColorError::BadComponent),
    };
    let bl = match hex_pair_at(b, k + 4) {
        Some(x) => x,
        None => return Err(HexColorError::BadComponent),
    };
    if len == 6 {
        Ok(Rgba8 { r, g, b: bl, a: 255 })
    } else {
        assert(h.subrange(6, 8) =~= b@.subrange(k + 6, k + 8));
        match hex_pair_at(b, k + 6) {
            Some(a) => Ok(Rgba8 { r, g, b: bl, a }),
            None => Err(HexColorError::BadComponent),
        }
    }
}

/// The accent colour as RGB: each of the first three components (after the leading
/// `#`s) read as hex when there are at least six bytes, a fixed default per component
/// otherwise.
pub open spec fn accent_spec(s: Seq<char>) -> (u8, u8, u8) {
    let h = hex_digits(s);
    if h.len() >= 6 {
        (
            match pair_at(h, 0) { Some(x) => x, None => 123 },
            match pair_at(h, 2) { Some(x) => x, None => 147 },
            match pair_at(h, 4) { Some(x) => x, None => 253 },
        )
    } else {
        (123, 147, 253)
    }
}

pub open spec fn accent_ok(s: Seq<char>) -> bool {
    let b = encode_utf8(s);
    let k = leading_hashes(b) as int;
    b.len() - k >= 6 ==> is_char_boundary(b, k + 2) && is_char_boundary(b, k + 4) && is_char_boundary(b, k + 6)
}

/// The accent colour of a theme (see [`accent_spec`]).
pub fn accent_rgb(hex: &str) -> (c: (u8, u8, u8))
    requires
        accent_ok(hex@),
    ensures
        c == accent_spec(hex@),
{
    let b = hex.as_bytes();
    let n = b.len();
    let k = skip_hashes(b);
    let ghost h = b@.skip(k as int);
    if n - k >= 6 {
        assert(h.subrange(0, 2) =~= b@.subrange(k as int, k + 2));
        assert(h.subrange(2, 4) =~= b@.subrange(k + 2, k + 4));
        assert(h.subrange(4, 6) =~= b@.subrange(k + 4, k + 6));
        let r = match hex_pair_at(b, k) { Some(x) => x, None => 123 };
        let g = match hex_pair_at(b, k + 2) { Some(x) => x, None => 147 };
        let bl = match hex_pair_at(b, k + 4) { Some(x) => x, None => 253 };
        (r, g, bl)
    } else {
        (123, 147, 253)
    }
}

/// The keybindings with the one at position `index` (new tab, close tab, next tab,
/// previous tab, paste, copy) replaced by a recorded key; other positions change nothing.
pub open spec fn with_binding(kb: KeybindingsConfig, index: nat, s: String) -> KeybindingsConfig {
    if index == 0 {
        KeybindingsConfig { new_tab: s, ..kb }
    } else if index == 1 {
        KeybindingsConfig { close_tab: s, ..kb }
    } else if index == 2 {
        KeybindingsConfig { next_tab: s, ..kb }
    } else if index == 3 {
        KeybindingsConfig { prev_tab: s, ..kb }
    } else if index == 4 {
        KeybindingsConfig { paste: s, ..kb }
    } else if index == 5 {
        KeybindingsConfig { copy: s, ..kb }
    } else {
        kb
    }
}

/// Store a recorded keybinding at its position (see [`with_binding`]).
pub fn set_recorded_binding(kb: &mut KeybindingsConfig, index: usize, s: String)
    ensures
        *final(kb) == with_binding(*old(kb), index as nat, s),
{
    if index == 0 {
        kb.new_tab = s;
    } else if index == 1 {
        kb.close_tab = s;
    } else if index == 2 {
        kb.next_tab = s;
    } else if index == 3 {
        kb.prev_tab = s;
    } else if index == 4 {
        kb.paste = s;
    } else if index == 5 {
        kb.copy = s;
    }
}

/// The name of an operating system as the assistant is told it.
pub open spec fn os_label(os: Seq<char>) -> Seq<char> {
    if os == "macos"@ {
        "macOS"@
    } else if os == "windows"@ {
        "Windows"@
    } else if os == "linux"@ {
        "Linux"@
    } else {
        os
    }
}

fn same_str(a: &str, b: &str) -> (r: bool)
    ensures
        r == (a@ == b@),
{
    let x = chars_of(a);
    let y = chars_of(b);
    chars_equal(x.as_slice(), y.as_slice())
}

/// The operating system's display name (see [`os_label`]).
pub fn os_display_name(os: &str) -> (s: String)
    ensures
        s@ == os_label(os@),
{
    if same_str(os, "macos") {
        "macOS".to_string()
    } else if same_str(os, "windows") {
        "Windows".to_string()
    } else if same_str(os, "linux") {
        "Linux".to_string()
    } else {
        os.to_string()
    }
}


/// Whether a colour string can be cut where parsing it needs to (see [`parse_hex_ok`]).
pub fn hex_color_cuts_ok(hex: &str) -> (r: bool)
    ensures
        r == parse_hex_ok(hex@),
{
    let b = hex.as_bytes();
    let n = b.len();
    let k = skip_hashes(b);
    let ghost h = b@.skip(k as int);
    let len = n - k;
    if len != 6 && len != 8 {
        return true;
    }
    assert(h.subrange(0, 2) =~= b@.subrange(k as int, k + 2));
    assert(h.subrange(2, 4) =~= b@.subrange(k + 2, k + 4));
    if !hex.is_char_boundary(k + 2) {
        return false;
    }
    if hex_pair_at(b, k).is_none() {
        return true;
    }
    if !hex.is_char_boundary(k + 4) {
        return false;
    }
    if len == 8 && hex_pair_at(b, k + 2).is_some() && !hex.is_char_boundary(k + 6) {
        return false;
    }
    true
}

/// Whether the accent colour can be cut where reading it needs to (see [`accent_ok`]).
pub fn accent_cuts_ok(hex: &str) -> (r: bool)
    ensures
        r == accent_ok(hex@),
{
    let b = hex.as_bytes();
    let n = b.len();
    let k = skip_hashes(b);
    if n - k >= 6 {
        hex.is_char_boundary(k + 2) && hex.is_char_boundary(k + 4) && hex.is_char_boundary(k + 6)
    } else {
        true
    }
}

/// A colour of the theme, as the settings screen names them.
#[derive(Clone, Copy, Debug, PartialEq, Eq, Structural)]
pub enum ColorField {
    Background,
    Foreground,
    Accent,
    ForegroundMuted,
    Border,
    Cursor,
}

/// The theme colours with one of them replaced.
pub open spec fn with_color(c: ThemeColorsConfig, field: ColorField, hex: String) -> ThemeColorsConfig {
    match field {
        ColorField::Background => ThemeColorsConfig { background: hex, ..c },
        ColorField::Foreground => ThemeColorsConfig { foreground: hex, ..c },
        ColorField::Accent => ThemeColorsConfig { accent: hex, ..c },
        ColorField::ForegroundMuted => ThemeColorsConfig { foreground_muted: hex, ..c },
        ColorField::Border => ThemeColorsConfig { border: hex, ..c },
        ColorField::Cursor => ThemeColorsConfig { cursor: hex, ..c },
    }
}

/// Take a colour typed in the settings screen: it replaces the field only when it reads
/// as a hex colour. Whether it was taken.
pub fn set_theme_color(colors: &mut ThemeColorsConfig, field: ColorField, hex: String) -> (taken: bool)
    requires
        parse_hex_ok(hex@),
    ensures
        taken == (parse_hex(hex@) is Ok),
        taken ==> *final(colors) == with_color(*old(colors), field, hex),
        !taken ==> *final(colors) == *old(colors),
{
    if parse_hex_color(hex.as_str()).is_err() {
        return false;
    }
    match field {
        ColorField::Background => colors.background = hex,
        ColorField::Foreground => colors.foreground = hex,
        ColorField::Accent => colors.accent = hex,
        ColorField::ForegroundMuted => colors.foreground_muted = hex,
        ColorField::Border => colors.border = hex,
        ColorField::Cursor => colors.cursor = hex,
    }
    true
}

/// A page of the settings screen.
#[derive(Clone, Copy, Debug, PartialEq, Eq, Structural)]
pub enum SettingsTab {
    General,
    Theme,
    Keybindings,
    StatusBar,
    Ai,
    Raw,
}

impl SettingsTab {
    /// The name of the page in the settings sidebar.
    pub fn label(&self) -> (s: String)
        ensures
            s@ == match self {
                SettingsTab::General => "General"@,
                SettingsTab::Theme => "Theme"@,
                SettingsTab::Keybindings => "Keybindings"@,
                SettingsTab::StatusBar => "Status Bar"@,
                SettingsTab::Ai => "AI"@,
                SettingsTab::Raw => "Raw"@,
            },
    {
        match self {
            SettingsTab::General => "General".to_string(),
            SettingsTab::Theme => "Theme".to_string(),
            SettingsTab::Keybindings => "Keybindings".to_string(),
            SettingsTab::StatusBar => "Status Bar".to_string(),
            SettingsTab::Ai => "AI".to_string(),
            SettingsTab::Raw => "Raw".to_string(),
        }
    }

    /// Whether opening the page first writes the settings out as text to edit.
    pub fn shows_raw_text(&self) -> (r: bool)
        ensures
            r == (*self == SettingsTab::Raw),
    {
        match self {
            SettingsTab::Raw => true,
            _ => false,
        }
    }
}


/// An ASCII letter byte in upper case.
pub open spec fn upper_byte(x: u8) -> u8 {
    if 0x61 <= x <= 0x7a { (x - 32) as u8 } else { x }
}

proof fn lemma_hex_val_upper(x: u8)
    ensures
        hex_val(upper_byte(x)) == hex_val(x),
{
}

proof fn lemma_leading_upper(b: Seq<u8>, u: Seq<u8>)
    requires
        u.len() == b.len(),
        forall|i: int| 0 <= i < b.len() ==> #[trigger] u[i] == upper_byte(b[i]),
    ensures
        leading_hashes(u) == leading_hashes(b),
    decreases b.len(),
{
    if b.len() > 0 {
        assert(u[0] == upper_byte(b[0]));
        lemma_leading_upper(b.drop_first(), u.drop_first());
    }
}

proof fn lemma_leading_le(b: Seq<u8>)
    ensures
        leading_hashes(b) <= b.len(),
    decreases b.len(),
{
    if b.len() > 0 {
        lemma_leading_le(b.drop_first());
    }
}

proof fn lemma_pair_upper(h: Seq<u8>, hu: Seq<u8>, i: int)
    requires
        hu.len() == h.len(),
        forall|k: int| 0 <= k < h.len() ==> #[trigger] hu[k] == upper_byte(h[k]),
        0 <= i,
        i + 2 <= h.len(),
    ensures
        pair_at(hu, i) == pair_at(h, i),
{
    let p = h.subrange(i, i + 2);
    let pu = hu.subrange(i, i + 2);
    assert(pu[0] == upper_byte(p[0]) && pu[1] == upper_byte(p[1]));
    lemma_hex_val_upper(p[0]);
    lemma_hex_val_upper(p[1]);
}

/// Hex digits are read in either case: an ASCII colour string and its upper-case form
/// parse to the same result.
pub proof fn law_hex_color_case(s: Seq<char>)
    requires
        vstd::utf8::is_ascii_chars(s),
    ensures
        parse_hex(crate::palette::ascii_upper(s)) == parse_hex(s),
{
    let us = crate::palette::ascii_upper(s);
    assert(vstd::utf8::is_ascii_chars(us)) by {
        assert forall|i: int| 0 <= i < us.len() implies '\0' <= #[trigger] us[i] <= '\u{7f}' by {
            assert(s[i] <= '\u{7f}');
        }
    }
    vstd::utf8::is_ascii_chars_encode_utf8(s);
    vstd::utf8::is_ascii_chars_encode_utf8(us);
    let b = encode_utf8(s);
    let u = encode_utf8(us);
    assert forall|i: int| 0 <= i < b.len() implies #[trigger] u[i] == upper_byte(b[i]) by {
        assert(u[i] == us[i] as u8);
        assert(b[i] == s[i] as u8);
    }
    lemma_leading_upper(b, u);
    lemma_leading_le(b);
    let k = leading_hashes(b) as int;
    let h = b.skip(k);
    let hu = u.skip(k);
    assert(hex_digits(s) == h);
    assert(hex_digits(us) == hu);
    assert forall|j: int| 0 <= j < h.len() implies #[trigger] hu[j] == upper_byte(h[j]) by {
        assert(hu[j] == u[k + j]);
        assert(h[j] == b[k + j]);
    }
    if h.len() == 6 || h.len() == 8 {
        lemma_pair_upper(h, hu, 0);
        lemma_pair_upper(h, hu, 2);
        lemma_pair_upper(h, hu, 4);
        if h.len() == 8 {
            lemma_pair_upper(h, hu, 6);
        }
    }
}

/// The value of a hexadecimal digit character, in either case.
pub open spec fn digit16(c: char) -> int {
    if '0' <= c <= '9' { c as int - '0' as int }
    else if 'a' <= c <= 'f' { c as int - 'a' as int + 10 }
    else { c as int - 'A' as int + 10 }
}

pub open spec fn is_hex_digit(c: char) -> bool {
    ('0' <= c <= '9') || ('a' <= c <= 'f') || ('A' <= c <= 'F')
}

/// `#` and six hexadecimal digits in either case read as the opaque colour whose red,
/// green and blue are the three two-digit numbers.
pub proof fn law_hex_color_value(s: Seq<char>)
    requires
        s.len() == 7,
        s[0] == '#',
        forall|i: int| 1 <= i < 7 ==> is_hex_digit(#[trigger] s[i]),
    ensures
        parse_hex(s) == Ok::<Rgba8, HexColorError>(Rgba8 {
            r: (digit16(s[1]) * 16 + digit16(s[2])) as u8,
            g: (digit16(s[3]) * 16 + digit16(s[4])) as u8,
            b: (digit16(s[5]) * 16 + digit16(s[6])) as u8,
            a: 255,
        }),
{
    assert(vstd::utf8::is_ascii_chars(s)) by {
        assert forall|i: int| 0 <= i < s.len() implies '\0' <= #[trigger] s[i] <= '\u{7f}' by {
            if i > 0 {
                assert(is_hex_digit(s[i]));
            }
        }
    }
    vstd::utf8::is_ascii_chars_encode_utf8(s);
    let b = encode_utf8(s);
    assert(b[0] == 0x23u8);
    assert forall|i: int| 1 <= i < 7 implies (#[trigger] b[i]) != 0x23u8 && hex_val(b[i]) == Some(digit16(s[i]) as u8) by {
        assert(b[i] == s[i] as u8);
        assert(is_hex_digit(s[i]));
    }
    assert(b.drop_first()[0] == b[1]);
    assert(leading_hashes(b.drop_first()) == 0);
    assert(leading_hashes(b) == 1);
    let h = b.skip(1);
    assert(hex_digits(s) == h);
    assert(h.len() == 6);
    assert forall|j: int| 0 <= j < 6 implies #[trigger] h[j] == b[j + 1] by {}
    assert(h[0] != 0x2bu8 && h[2] != 0x2bu8 && h[4] != 0x2bu8) by {
        assert(hex_val(h[0]) is Some && hex_val(h[2]) is Some && hex_val(h[4]) is Some);
    }
    assert(h.subrange(0, 2)[0] == h[0] && h.subrange(0, 2)[1] == h[1]);
    assert(h.subrange(2, 4)[0] == h[2] && h.subrange(2, 4)[1] == h[3]);
    assert(h.subrange(4, 6)[0] == h[4] && h.subrange(4, 6)[1] == h[5]);
}

} // verus!
