//! What a terminal session does with the shell's requests and with typed input: the
//! actions the interface takes after output arrives, and the tracking of the command
//! line being typed.
use vstd::prelude::*;
use crate::grid::{ControlCommand, ControlView};
use crate::status::push_decimal_chars;
use crate::ext::{base64_encode, base64_standard_decode, base64_standard_encode};
use crate::text::{decimal_chars, trim};
use vstd::utf8::encode_utf8;

verus! {

/// What the shell's requests in one batch of output ask the interface to do.
#[derive(Debug, PartialEq)]
pub struct ControlSummary {
    pub open_ask_ai: bool,
    pub open_explain_ai: bool,
    pub ai_preset: Option<String>,
    pub clipboard_write: Option<String>,
    pub request_clipboard: bool,
    pub diagnostic: Option<i32>,
    pub command_completed: bool,
}

pub ghost struct SummaryView {
    pub open_ask_ai: bool,
    pub open_explain_ai: bool,
    pub ai_preset: Option<Seq<char>>,
    pub clipboard_write: Option<Seq<char>>,
    pub request_clipboard: bool,
    pub diagnostic: Option<i32>,
    pub command_completed: bool,
}

impl View for ControlSummary {
    type V = SummaryView;

    open spec fn view(&self) -> SummaryView {
        SummaryView {
            open_ask_ai: self.open_ask_ai,
            open_explain_ai: self.open_explain_ai,
            ai_preset: crate::grid::string_opt_view(self.ai_preset),
            clipboard_write: crate::grid::string_opt_view(self.clipboard_write),
            request_clipboard: self.request_clipboard,
            diagnostic: self.diagnostic,
            command_completed: self.command_completed,
        }
    }
}

pub open spec fn empty_summary() -> SummaryView {
    SummaryView {
        open_ask_ai: false,
        open_explain_ai: false,
        ai_preset: None,
        clipboard_write: None,
        request_clipboard: false,
        diagnostic: None,
        command_completed: false,
    }
}

/// A preset question counts when it is not blank.
pub open spec fn preset_of(p: Option<Seq<char>>, current: Option<Seq<char>>) -> Option<Seq<char>> {
    match p {
        Some(t) => if trim(t).len() > 0 { Some(t) } else { current },
        None => current,
    }
}

/// One request: the clipboard is written (last text wins) or read; the assistant opens,
/// taking a non-blank preset question; a failed command (exit status from 1 to 127)
/// asks for a diagnosis when the banner is enabled and an API key is set; a finished
/// command is noted.
pub open spec fn apply_control(s: SummaryView, c: ControlView, banner: bool, has_key: bool) -> SummaryView {
    match c {
        ControlView::SetClipboard(t) => SummaryView { clipboard_write: Some(t), ..s },
        ControlView::RequestClipboard => SummaryView { request_clipboard: true, ..s },
        ControlView::OpenAskAi { preset } => SummaryView { open_ask_ai: true, ai_preset: preset_of(preset, s.ai_preset), ..s },
        ControlView::OpenExplainAi { preset } => SummaryView { open_explain_ai: true, ai_preset: preset_of(preset, s.ai_preset), ..s },
        ControlView::CommandFailure(code) => if banner && code != 0 && code < 128 && has_key { SummaryView { diagnostic: Some(code), ..s } } else { s },
        ControlView::CommandComplete(_) => SummaryView { command_completed: true, ..s },
    }
}

/// The requests applied in order.
pub open spec fn summarize(q: Seq<ControlView>, banner: bool, has_key: bool) -> SummaryView
    decreases q.len(),
{
    if q.len() == 0 {
        empty_summary()
    } else {
        apply_control(summarize(q.drop_last(), banner, has_key), q.last(), banner, has_key)
    }
}

fn not_blank(s: &String) -> (r: bool)
    ensures
        r == (trim(s@).len() > 0),
{
    let t = crate::text::trim_string(s.as_str());
    t.as_str().unicode_len() > 0
}

/// Summarise the shell's requests (see [`summarize`]); `banner` is whether diagnosis
/// banners are enabled, `has_key` whether an API key is set.
pub fn summarize_controls(queue: &Vec<ControlCommand>, banner: bool, has_key: bool) -> (s: ControlSummary)
    ensures
        s@ == summarize(queue@.map_values(|c: ControlCommand| c@), banner, has_key),
{
    let ghost q = queue@.map_values(|c: ControlCommand| c@);
    let mut s = ControlSummary {
        open_ask_ai: false,
        open_explain_ai: false,
        ai_preset: None,
        clipboard_write: None,
        request_clipboard: false,
        diagnostic: None,
        command_completed: false,
    };
    let mut i: usize = 0;
    assert(q.take(0) =~= Seq::<ControlView>::empty());
    while i < queue.len()
        invariant
            i <= queue@.len(),
            q == queue@.map_values(|c: ControlCommand| c@),
            s@ == summarize(q.take(i as int), banner, has_key),
        decreases queue@.len() - i,
    {
        assert(q.take(i + 1).drop_last() =~= q.take(i as int));
        assert(q.take(i + 1).last() == queue@[i as int]@);
        match &queue[i] {
            ControlCommand::SetClipboard(t) => {
                s.clipboard_write = Some(t.clone());
            },
            ControlCommand::RequestClipboard => {
                s.request_clipboard = true;
            },
            ControlCommand::OpenAskAi { preset } => {
                s.open_ask_ai = true;
                if let Some(p) = preset {
                    if not_blank(p) {
                        s.ai_preset = Some(p.clone());
                    }
                }
            },
            ControlCommand::OpenExplainAi { preset } => {
                s.open_explain_ai = true;
                if let Some(p) = preset {
                    if not_blank(p) {
                        s.ai_preset = Some(p.clone());
                    }
                }
            },
            ControlCommand::CommandFailure(code) => {
                if banner && *code != 0 && *code < 128 && has_key {
                    s.diagnostic = Some(*code);
                }
            },
            ControlCommand::CommandComplete(_) => {
                s.command_completed = true;
            },
        }
        i = i + 1;
    }
    assert(q.take(queue@.len() as int) =~= q);
    s
}

/// The question the assistant opens with: the preset, or for an explanation a default
/// request to explain the errors above.
pub open spec fn opening_question(explain: bool, preset: Option<Seq<char>>) -> Seq<char> {
    match preset {
        Some(p) => p,
        None => if explain { "Explain any errors in the terminal output above."@ } else { Seq::empty() },
    }
}

pub fn ai_opening_input(explain: bool, preset: Option<String>) -> (s: String)
    ensures
        s@ == opening_question(explain, crate::grid::string_opt_view(preset)),
{
    match preset {
        Some(p) => p,
        None => if explain { "Explain any errors in the terminal output above.".to_string() } else { String::new() },
    }
}

/// A notification for a long command (ten seconds or more) that finished while its tab
/// was not in view: "Finished in Ns", or "Finished in Mm Ns" from a minute on.
pub open spec fn completion_notice(secs: nat, focused: bool, active: bool) -> Option<Seq<char>> {
    if secs >= 10 && (!focused || !active) {
        Some(if secs < 60 {
            "Finished in "@ + decimal_chars(secs) + seq!['s']
        } else {
            "Finished in "@ + decimal_chars(secs / 60) + seq!['m', ' '] + decimal_chars(secs % 60) + seq!['s']
        })
    } else {
        None
    }
}

pub fn completion_notification(secs: u64, window_focused: bool, tab_active: bool) -> (r: Option<String>)
    requires
        secs <= usize::MAX,
    ensures
        crate::grid::string_opt_view(r) == completion_notice(secs as nat, window_focused, tab_active),
{
    if secs >= 10 && (!window_focused || !tab_active) {
        let mut s = "Finished in ".to_string();
        if secs < 60 {
            push_decimal_chars(&mut s, secs as usize);
            crate::ext::push_char(&mut s, 's');
        } else {
            push_decimal_chars(&mut s, (secs / 60) as usize);
            crate::ext::push_char(&mut s, 'm');
            crate::ext::push_char(&mut s, ' ');
            push_decimal_chars(&mut s, (secs % 60) as usize);
            crate::ext::push_char(&mut s, 's');
        }
        Some(s)
    } else {
        None
    }
}

/// What typing did to the command line being tracked.
#[derive(Clone, Copy, Debug, PartialEq, Eq, Structural)]
pub enum InputEffect {
    /// Enter with a non-empty line: the line was submitted.
    Submitted,
    /// The last character was removed.
    Erased,
    /// The line was abandoned (interrupt, kill line, history navigation, or a control
    /// character).
    Cleared,
    /// A printable character was appended.
    Typed,
    /// Nothing changed.
    Unchanged,
}

/// Typing `bytes` with command line `line`: Enter submits a non-empty line; backspace
/// or delete removes a character; ^C, ^U and the up and down arrows abandon the line; a
/// printable ASCII character is appended, any other single byte abandons the line.
pub open spec fn track_input(line: Seq<char>, bytes: Seq<u8>) -> (Seq<char>, InputEffect) {
    if bytes == seq![0x0du8] {
        if line.len() > 0 { (Seq::empty(), InputEffect::Submitted) } else { (line, InputEffect::Unchanged) }
    } else if bytes == seq![0x7fu8] || bytes == seq![0x08u8] {
        (if line.len() > 0 { line.drop_last() } else { line }, InputEffect::Erased)
    } else if bytes == seq![0x03u8] || bytes == seq![0x15u8] || (bytes.len() >= 2 && bytes[0] == 0x1b && (bytes[1] == 0x41 || bytes[1] == 0x42)) {
        (Seq::empty(), InputEffect::Cleared)
    } else if bytes.len() == 1 {
        if 0x20 <= bytes[0] <= 0x7e {
            (line.push(bytes[0] as char), InputEffect::Typed)
        } else {
            (Seq::empty(), InputEffect::Cleared)
        }
    } else {
        (line, InputEffect::Unchanged)
    }
}

/// Track typed input on the command line (see [`track_input`]); on submission the
/// submitted line is returned.
pub fn track_typed_input(line: &mut String, bytes: &[u8]) -> (r: (InputEffect, Option<String>))
    ensures
        (final(line)@, r.0) == track_input(old(line)@, bytes@),
        r.0 == InputEffect::Submitted ==> (r.1 is Some && r.1.unwrap()@ == old(line)@),
        r.0 != InputEffect::Submitted ==> r.1 is None,
{
    let n = bytes.len();
    let one = n == 1;
    if one && bytes[0] == 0x0d {
        assert(bytes@ =~= seq![0x0du8]);
        if line.as_str().unicode_len() > 0 {
            let mut taken = String::new();
            std::mem::swap(&mut taken, line);
            return (InputEffect::Submitted, Some(taken));
        }
        return (InputEffect::Unchanged, None);
    }
    assert(bytes@ != seq![0x0du8]) by {
        if bytes@.len() == 1 {
            assert(bytes@[0] != seq![0x0du8][0]);
        }
    }
    if one && (bytes[0] == 0x7f || bytes[0] == 0x08) {
        assert(bytes@ =~= seq![0x7fu8] || bytes@ =~= seq![0x08u8]);
        let v = crate::text::chars_of(line.as_str());
        let k = v.len();
        if k > 0 {
            *line = crate::text::string_of_chars(v.as_slice(), 0, k - 1);
            assert(v@.subrange(0, k - 1) =~= v@.drop_last());
        }
        return (InputEffect::Erased, None);
    }
    assert(bytes@ != seq![0x7fu8] && bytes@ != seq![0x08u8]) by {
        if bytes@.len() == 1 {
            assert(bytes@[0] != seq![0x7fu8][0] && bytes@[0] != seq![0x08u8][0]);
        }
    }
    if (one && (bytes[0] == 0x03 || bytes[0] == 0x15)) || (n >= 2 && bytes[0] == 0x1b && (bytes[1] == 0x41 || bytes[1] == 0x42)) {
        if one {
            assert(bytes@ =~= seq![0x03u8] || bytes@ =~= seq![0x15u8]);
        }
        *line = String::new();
        return (InputEffect::Cleared, None);
    }
    assert(bytes@ != seq![0x03u8] && bytes@ != seq![0x15u8]) by {
        if bytes@.len() == 1 {
            assert(bytes@[0] != seq![0x03u8][0] && bytes@[0] != seq![0x15u8][0]);
        }
    }
    if one {
        let b = bytes[0];
        if 0x20 <= b && b <= 0x7e {
            crate::ext::push_char(line, b as char);
            return (InputEffect::Typed, None);
        }
        *line = String::new();
        return (InputEffect::Cleared, None);
    }
    (InputEffect::Unchanged, None)
}


/// What a paste sends to the shell: the text, between `ESC [ 200 ~` and `ESC [ 201 ~`
/// when the application asked for bracketed paste.
pub open spec fn paste_payload(text: Seq<char>, bracketed: bool) -> Seq<u8> {
    if bracketed {
        seq![0x1bu8, 0x5b, 0x32, 0x30, 0x30, 0x7e] + encode_utf8(text) + seq![0x1bu8, 0x5b, 0x32, 0x30, 0x31, 0x7e]
    } else {
        encode_utf8(text)
    }
}

/// The bytes of a paste (see [`paste_payload`]).
pub fn paste_bytes(text: &str, bracketed: bool) -> (out: Vec<u8>)
    ensures
        out@ == paste_payload(text@, bracketed),
{
    let b = text.as_bytes();
    if bracketed {
        let mut out = vec![0x1bu8, 0x5b, 0x32, 0x30, 0x30, 0x7e];
        crate::text::append_bytes(&mut out, b);
        crate::text::append_bytes(&mut out, &[0x1bu8, 0x5b, 0x32, 0x30, 0x31, 0x7e]);
        out
    } else {
        let mut out: Vec<u8> = Vec::new();
        crate::text::append_bytes(&mut out, b);
        assert(out@ =~= encode_utf8(text@));
        out
    }
}

/// The answer to an application's clipboard query (OSC 52 with `?`): the clipboard text
/// base64-encoded in `ESC ] 52 ; c ; … BEL`.
pub open spec fn clipboard_answer(text: Seq<char>) -> Seq<u8> {
    seq![0x1bu8, 0x5d, 0x35, 0x32, 0x3b, 0x63, 0x3b] + encode_utf8(base64_standard_encode(encode_utf8(text))) + seq![0x07u8]
}

/// The base64 text of the clipboard, as bytes.
pub open spec fn encoded_clipboard(text: Seq<char>) -> Seq<u8> {
    encode_utf8(base64_standard_encode(encode_utf8(text)))
}

/// The reply to a clipboard query (see [`clipboard_answer`]). Its encoded text decodes
/// back to the clipboard's bytes.
pub fn clipboard_reply(text: &str) -> (out: Vec<u8>)
    requires
        (encode_utf8(text@).len() / 3) * 4 + 4 <= usize::MAX,
    ensures
        out@ == clipboard_answer(text@),
        base64_standard_decode(encoded_clipboard(text@)) == Some(encode_utf8(text@)),
        text@.len() > 0 ==> encoded_clipboard(text@).len() > 0,
        encoded_clipboard(text@) != seq![0x3fu8],
{
    let mut out = vec![0x1bu8, 0x5d, 0x35, 0x32, 0x3b, 0x63, 0x3b];
    let encoded = base64_encode(text.as_bytes());
    crate::text::append_bytes(&mut out, encoded.as_str().as_bytes());
    out.push(0x07);
    proof {
        vstd::utf8::encode_utf8_decode_utf8(text@);
        vstd::utf8::encode_utf8_decode_utf8(encoded@);
        if encode_utf8(encoded@) == seq![0x3fu8] {
            lemma_question_mark_bytes();
            vstd::utf8::encode_utf8_decode_utf8(seq!['?']);
            assert(encoded@ =~= seq!['?']);
            assert(crate::ext::base64_alphabet(encoded@[0]));
        }
        if text@.len() > 0 {
            assert(encode_utf8(text@).len() > 0) by {
                if encode_utf8(text@).len() == 0 {
                    assert(vstd::utf8::decode_utf8(encode_utf8(text@)) =~= Seq::<char>::empty());
                }
            }
            assert(encode_utf8(encoded@).len() > 0) by {
                if encode_utf8(encoded@).len() == 0 {
                    assert(vstd::utf8::decode_utf8(encode_utf8(encoded@)) =~= Seq::<char>::empty());
                }
            }
        }
    }
    out
}

proof fn lemma_question_mark_bytes()
    ensures
        encode_utf8(seq!['?']) == seq![0x3fu8],
{
    let q: u32 = 0x3F;
    assert(q & 0x7F == 0x3F) by (bit_vector)
        requires
            q == 0x3F,
    ;
    assert(seq!['?'].drop_first() =~= Seq::<char>::empty());
    assert(('?' as u32) == 0x3F);
    assert(vstd::utf8::leading_byte_width_1(0x3F) == 0x3Fu8);
    assert(vstd::utf8::encode_scalar(0x3F) =~= seq![0x3fu8]);
    assert(encode_utf8(Seq::<char>::empty()) =~= Seq::<u8>::empty());
    assert(encode_utf8(seq!['?']) =~= seq![0x3fu8]);
}

/// The clipboard travels intact: the parameters of a clipboard answer, read as OSC 52,
/// set the clipboard to the text that was sent.
pub proof fn law_clipboard_round_trip(g: crate::grid::GridModel, text: Seq<char>)
    requires
        text.len() > 0,
        encoded_clipboard(text).len() > 0,
        base64_standard_decode(encoded_clipboard(text)) == Some(encode_utf8(text)),
        encoded_clipboard(text) != seq![0x3fu8],
    ensures
        crate::osc::osc_spec(g, seq![seq![0x35u8, 0x32], seq![0x63u8], encoded_clipboard(text)])
            == crate::osc::push_control(g, ControlView::SetClipboard(text)),
{
    vstd::utf8::encode_utf8_valid_utf8(text);
    vstd::utf8::encode_utf8_decode_utf8(text);
    let p = seq![seq![0x35u8, 0x32], seq![0x63u8], encoded_clipboard(text)];
    assert(p[0] != crate::osc::nova_code());
    assert(p[0] != seq![0x37u8]);
    assert(p[0] != seq![0x38u8]);
}

/// Why a paste is held for confirmation: several lines may run several commands.
pub open spec fn paste_warning_text(content: Seq<char>) -> Seq<char> {
    if content.contains('\n') {
        "Contains multiple lines. Pasting may execute unintended commands."@
    } else {
        "May contain dangerous commands."@
    }
}

pub fn paste_warning_reason(content: &str) -> (s: String)
    ensures
        s@ == paste_warning_text(content@),
{
    let v = crate::text::chars_of(content);
    match crate::text::find_char_from(v.as_slice(), 0, '\n') {
        Some(i) => {
            assert(v@.skip(0) =~= v@);
            proof {
                crate::text::lemma_first_index_bound(v@, '\n');
            }
            assert(content@[i as int] == '\n');
            "Contains multiple lines. Pasting may execute unintended commands.".to_string()
        },
        None => {
            assert(v@.skip(0) =~= v@);
            assert(!content@.contains('\n')) by {
                if content@.contains('\n') {
                    let k = choose|k: int| 0 <= k < content@.len() && content@[k] == '\n';
                    crate::text::lemma_first_index_bound(v@, '\n');
                    absent_means_none(v@, k);
                }
            }
            "May contain dangerous commands.".to_string()
        },
    }
}

proof fn absent_means_none(s: Seq<char>, k: int)
    requires
        0 <= k < s.len(),
        s[k] == '\n',
    ensures
        crate::text::first_index(s, '\n') is Some,
    decreases k,
{
    if k > 0 && s[0] != '\n' {
        absent_means_none(s.drop_first(), k - 1);
    }
}


/// The command line after typing `bytes` one key at a time.
pub open spec fn typed_line(line: Seq<char>, bytes: Seq<u8>) -> Seq<char>
    decreases bytes.len(),
{
    if bytes.len() == 0 {
        line
    } else {
        typed_line(track_input(line, seq![bytes[0]]).0, bytes.drop_first())
    }
}

pub open spec fn printable(bytes: Seq<u8>) -> bool {
    forall|i: int| 0 <= i < bytes.len() ==> 0x20 <= #[trigger] bytes[i] <= 0x7e
}

pub open spec fn as_chars(bytes: Seq<u8>) -> Seq<char> {
    bytes.map_values(|b: u8| b as char)
}

proof fn lemma_typed_appends(line: Seq<char>, bytes: Seq<u8>)
    requires
        printable(bytes),
    ensures
        typed_line(line, bytes) == line + as_chars(bytes),
    decreases bytes.len(),
{
    if bytes.len() == 0 {
        assert(line + as_chars(bytes) =~= line);
    } else {
        let b = bytes[0];
        assert(0x20 <= b <= 0x7e);
        let one = seq![b];
        assert(one != seq![0x0du8] && one != seq![0x7fu8] && one != seq![0x08u8]) by {
            assert(one[0] == b);
        }
        assert(one != seq![0x03u8] && one != seq![0x15u8]) by {
            assert(one[0] == b);
        }
        assert(track_input(line, one) == (line.push(b as char), InputEffect::Typed));
        let rest = bytes.drop_first();
        assert(printable(rest)) by {
            assert forall|i: int| 0 <= i < rest.len() implies 0x20 <= #[trigger] rest[i] <= 0x7e by {
                assert(rest[i] == bytes[i + 1]);
            }
        }
        lemma_typed_appends(line.push(b as char), rest);
        assert(line.push(b as char) + as_chars(rest) =~= line + as_chars(bytes));
    }
}

/// Typing printable characters on an empty command line and pressing Enter submits
/// exactly what was typed, and leaves the line empty.
pub proof fn law_typed_line_submitted(bytes: Seq<u8>)
    requires
        printable(bytes),
        bytes.len() > 0,
    ensures
        typed_line(Seq::empty(), bytes) == as_chars(bytes),
        track_input(typed_line(Seq::empty(), bytes), seq![0x0du8]) == (Seq::<char>::empty(), InputEffect::Submitted),
{
    lemma_typed_appends(Seq::empty(), bytes);
    assert(Seq::<char>::empty() + as_chars(bytes) =~= as_chars(bytes));
}

} // verus!
