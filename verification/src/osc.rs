//! Operating system commands (OSC): the shell integration codes of Nova (777), the
//! working directory (7), hyperlinks (8) and the clipboard (52).
use vstd::prelude::*;
use vstd::utf8::{decode_utf8, valid_utf8};
use crate::ext::{base64_decode, base64_standard_decode, lossy_utf8, utf8_decode, utf8_lossy};
use crate::grid::{ControlCommand, ControlView, GridModel, Hyperlink, LinkView};
use crate::parser::AnsiExecutor;
use crate::text::{bytes_equal, chars_of, find_char_from, first_index, parse_i32, parse_i32_bytes, push_chars, starts_with_chars, string_of_chars};

verus! {

pub open spec fn osc_view(p: Seq<Vec<u8>>) -> Seq<Seq<u8>> {
    p.map_values(|v: Vec<u8>| v@)
}

/// The private OSC code of Nova's shell integration, "777".
pub open spec fn nova_code() -> Seq<u8> {
    seq![0x37u8, 0x37u8, 0x37u8]
}

pub open spec fn word_ask_ai() -> Seq<u8> {
    seq![0x61u8, 0x73, 0x6b, 0x5f, 0x61, 0x69]
}

pub open spec fn word_explain_ai() -> Seq<u8> {
    seq![0x65u8, 0x78, 0x70, 0x6c, 0x61, 0x69, 0x6e, 0x5f, 0x61, 0x69]
}

pub open spec fn word_command_failure() -> Seq<u8> {
    seq![0x63u8, 0x6f, 0x6d, 0x6d, 0x61, 0x6e, 0x64, 0x5f, 0x66, 0x61, 0x69, 0x6c, 0x75, 0x72, 0x65]
}

pub open spec fn word_command_complete() -> Seq<u8> {
    seq![0x63u8, 0x6f, 0x6d, 0x6d, 0x61, 0x6e, 0x64, 0x5f, 0x63, 0x6f, 0x6d, 0x70, 0x6c, 0x65, 0x74, 0x65]
}

/// Text sent base64-encoded in parameter 2, when it is present, decodes and is UTF-8.
pub open spec fn encoded_text(p: Seq<Seq<u8>>) -> Option<Seq<char>> {
    if p.len() >= 3 && p[2].len() > 0 {
        match base64_standard_decode(p[2]) {
            Some(b) => if valid_utf8(b) { Some(decode_utf8(b)) } else { None },
            None => None,
        }
    } else {
        None
    }
}

/// An exit status in parameter 2, or `d` when absent or not a decimal `i32`.
pub open spec fn status_code(p: Seq<Seq<u8>>, d: i32) -> i32 {
    if p.len() >= 3 {
        match parse_i32(p[2]) {
            Some(v) => v,
            None => d,
        }
    } else {
        d
    }
}

/// The working directory reported by OSC 7: the path of a `file://host/path` URL
/// (with its leading slash), or `ssh:host` for a non-empty `ssh://host`.
pub open spec fn reported_dir(url: Seq<char>) -> Option<Seq<char>> {
    let file = seq!['f', 'i', 'l', 'e', ':', '/', '/'];
    let ssh = seq!['s', 's', 'h', ':', '/', '/'];
    if url.len() >= 7 && url.take(7) == file {
        let after = url.skip(7);
        match first_index(after, '/') {
            Some(i) => Some(seq!['/'] + after.skip(i + 1int)),
            None => None,
        }
    } else if url.len() > 6 && url.take(6) == ssh {
        Some(seq!['s', 's', 'h', ':'] + url.skip(6))
    } else {
        None
    }
}

/// A reported directory as a Windows path: a `/C:/Users/me` path reported by OSC 7
/// loses its leading slash and takes backslashes (`C:\Users\me`); an `ssh:` directory
/// is kept as it is.
pub open spec fn windows_dir_spec(dir: Seq<char>) -> Seq<char> {
    if dir.len() > 0 && dir[0] == '/' {
        dir.skip(1).map_values(|c: char| if c == '/' { '\\' } else { c })
    } else {
        dir
    }
}

/// The working directory as Windows names it (see [`windows_dir_spec`]); the grid
/// keeps directories in the form OSC 7 reports them.
pub fn windows_dir(dir: &str) -> (s: String)
    ensures
        s@ == windows_dir_spec(dir@),
{
    let v = chars_of(dir);
    if v.len() > 0 && v[0] == '/' {
        let mut out: Vec<char> = Vec::new();
        let mut i: usize = 1;
        while i < v.len()
            invariant
                1 <= i <= v@.len(),
                v@ == dir@,
                out@ =~= v@.subrange(1, i as int).map_values(|c: char| if c == '/' { '\\' } else { c }),
            decreases v@.len() - i,
        {
            let c = v[i];
            out.push(if c == '/' { '\\' } else { c });
            i = i + 1;
        }
        assert(v@.subrange(1, v@.len() as int) =~= dir@.skip(1));
        string_of_chars(out.as_slice(), 0, out.len())
    } else {
        string_of_chars(v.as_slice(), 0, v.len())
    }
}

pub open spec fn push_control(g: GridModel, c: ControlView) -> GridModel {
    GridModel { control_queue: g.control_queue.push(c), ..g }
}

/// The effect of an OSC sequence with parameters `p` (split at semicolons).
pub open spec fn osc_spec(g: GridModel, p: Seq<Seq<u8>>) -> GridModel {
    if p.len() == 0 {
        g
    } else if p[0] == nova_code() && p.len() >= 2 && p[1] == word_ask_ai() {
        push_control(g, ControlView::OpenAskAi { preset: encoded_text(p) })
    } else if p[0] == nova_code() && p.len() >= 2 && p[1] == word_command_failure() {
        push_control(g, ControlView::CommandFailure(status_code(p, 1)))
    } else if p[0] == nova_code() && p.len() >= 2 && p[1] == word_command_complete() {
        push_control(g, ControlView::CommandComplete(status_code(p, 0)))
    } else if p[0] == nova_code() && p.len() >= 2 && p[1] == word_explain_ai() {
        push_control(g, ControlView::OpenExplainAi { preset: encoded_text(p) })
    } else if p[0] == seq![0x37u8] && p.len() >= 2 {
        match reported_dir(lossy_utf8(p[1])) {
            Some(d) => GridModel { pwd: d, ..g },
            None => g,
        }
    } else if p[0] == seq![0x38u8] && p.len() >= 3 {
        let uri = lossy_utf8(p[2]);
        if uri.len() == 0 {
            GridModel { current_link: None, ..g }
        } else {
            GridModel {
                current_link: Some(LinkView { id: g.next_link_id, uri }),
                next_link_id: if g.next_link_id == u64::MAX { 0 } else { (g.next_link_id + 1) as u64 },
                ..g
            }
        }
    } else if p[0] == seq![0x35u8, 0x32] && p.len() >= 3 {
        if p[2] == seq![0x3fu8] {
            push_control(g, ControlView::RequestClipboard)
        } else if p[2].len() > 0 {
            match base64_standard_decode(p[2]) {
                Some(b) => if valid_utf8(b) { push_control(g, ControlView::SetClipboard(decode_utf8(b))) } else { g },
                None => g,
            }
        } else {
            g
        }
    } else {
        g
    }
}

/// Decode base64 text (see [`encoded_text`]).
fn decode_text(data: &Vec<u8>) -> (r: Option<String>)
    ensures
        match r {
            Some(s) => base64_standard_decode(data@) matches Some(b) && valid_utf8(b) && s@ == decode_utf8(b),
            None => match base64_standard_decode(data@) {
                Some(b) => !valid_utf8(b),
                None => true,
            },
        },
{
    match base64_decode(data.as_slice()) {
        Some(bytes) => utf8_decode(bytes.as_slice()),
        None => None,
    }
}

/// The working directory from an OSC 7 URL (see [`reported_dir`]).
pub fn dir_from_url(url: &str) -> (r: Option<String>)
    ensures
        crate::grid::string_opt_view(r) == reported_dir(url@),
{
    let v = chars_of(url);
    let n = v.len();
    let file = ['f', 'i', 'l', 'e', ':', '/', '/'];
    let ssh = ['s', 's', 'h', ':', '/', '/'];
    assert(file@ =~= seq!['f', 'i', 'l', 'e', ':', '/', '/']);
    assert(ssh@ =~= seq!['s', 's', 'h', ':', '/', '/']);
    if starts_with_chars(v.as_slice(), &file) {
        match find_char_from(v.as_slice(), 7, '/') {
            Some(i) => {
                assert(i < v@.len());
                let mut out = String::new();
                crate::ext::push_char(&mut out, '/');
                let rest = string_of_chars(v.as_slice(), i + 1, n);
                push_chars(&mut out, chars_of(rest.as_str()).as_slice());
                assert(v@.skip(7).skip((i - 7) + 1) =~= v@.subrange(i + 1, v@.len() as int));
                assert(out@ =~= seq!['/'] + v@.skip(7).skip((i - 7) + 1));
                Some(out)
            },
            None => None,
        }
    } else if v.len() > 6 && starts_with_chars(v.as_slice(), &ssh) {
        let mut out = String::new();
        let head = ['s', 's', 'h', ':'];
        push_chars(&mut out, &head);
        let rest = string_of_chars(v.as_slice(), 6, v.len());
        push_chars(&mut out, chars_of(rest.as_str()).as_slice());
        assert(out@ =~= seq!['s', 's', 'h', ':'] + v@.skip(6));
        Some(out)
    } else {
        None
    }
}

impl<'a> AnsiExecutor<'a> {
    fn push_control(&mut self, c: ControlCommand)
        ensures
            final(self).grid@ == push_control(old(self).grid@, c@),
            final(self).grid.cells == old(self).grid.cells,
            final(self).grid.cols == old(self).grid.cols,
            final(self).grid.rows == old(self).grid.rows,
            final(self).bell_pending == old(self).bell_pending,
    {
        let ghost q = self.grid.control_queue@;
        self.grid.control_queue.push(c);
        assert(self.grid.control_queue@.map_values(|c: ControlCommand| c@) =~= q.map_values(|c: ControlCommand| c@).push(c@));
        assert(self.grid@ =~= push_control(old(self).grid@, c@));
    }

    /// Execute an OSC sequence (see [`osc_spec`]).
    pub fn osc_dispatch(&mut self, params: &Vec<Vec<u8>>)
        requires
            old(self).grid.wf(),
            old(self).grid@.executor_ok(),
        ensures
            final(self).grid.wf(),
            final(self).grid@.executor_ok(),
            final(self).grid@ == osc_spec(old(self).grid@, osc_view(params@)),
            final(self).bell_pending == old(self).bell_pending,
    {
        let ghost g0 = self.grid@;
        let ghost p = osc_view(params@);
        if params.len() == 0 {
            return;
        }
        assert(params@[0]@ == p[0]);
        let w_nova: [u8; 3] = [0x37u8, 0x37, 0x37];
        let w_ask: [u8; 6] = [0x61u8, 0x73, 0x6b, 0x5f, 0x61, 0x69];
        let w_fail: [u8; 15] = [0x63u8, 0x6f, 0x6d, 0x6d, 0x61, 0x6e, 0x64, 0x5f, 0x66, 0x61, 0x69, 0x6c, 0x75, 0x72, 0x65];
        let w_done: [u8; 16] = [0x63u8, 0x6f, 0x6d, 0x6d, 0x61, 0x6e, 0x64, 0x5f, 0x63, 0x6f, 0x6d, 0x70, 0x6c, 0x65, 0x74, 0x65];
        let w_explain: [u8; 10] = [0x65u8, 0x78, 0x70, 0x6c, 0x61, 0x69, 0x6e, 0x5f, 0x61, 0x69];
        let w_dir: [u8; 1] = [0x37u8];
        let w_link: [u8; 1] = [0x38u8];
        let w_clip: [u8; 2] = [0x35u8, 0x32];
        let w_query: [u8; 1] = [0x3fu8];
        assert(w_nova@ =~= nova_code());
        assert(w_ask@ =~= word_ask_ai());
        assert(w_fail@ =~= word_command_failure());
        assert(w_done@ =~= word_command_complete());
        assert(w_explain@ =~= word_explain_ai());
        assert(w_dir@ =~= seq![0x37u8]);
        assert(w_link@ =~= seq![0x38u8]);
        assert(w_clip@ =~= seq![0x35u8, 0x32]);
        assert(w_query@ =~= seq![0x3fu8]);
        let nova = bytes_equal(params[0].as_slice(), &w_nova);
        let two = params.len() >= 2;
        if two {
            assert(params@[1]@ == p[1]);
        }
        if params.len() >= 3 {
            assert(params@[2]@ == p[2]);
        }
        if nova && two && bytes_equal(params[1].as_slice(), &w_ask) {
            let preset = if params.len() >= 3 && params[2].len() > 0 { decode_text(&params[2]) } else { None };
            self.push_control(ControlCommand::OpenAskAi { preset });
        } else if nova && two && bytes_equal(params[1].as_slice(), &w_fail) {
            let code = if params.len() >= 3 {
                match parse_i32_bytes(params[2].as_slice()) {
                    Some(v) => v,
                    None => 1,
                }
            } else {
                1
            };
            self.push_control(ControlCommand::CommandFailure(code));
        } else if nova && two && bytes_equal(params[1].as_slice(), &w_done) {
            let code = if params.len() >= 3 {
                match parse_i32_bytes(params[2].as_slice()) {
                    Some(v) => v,
                    None => 0,
                }
            } else {
                0
            };
            self.push_control(ControlCommand::CommandComplete(code));
        } else if nova && two && bytes_equal(params[1].as_slice(), &w_explain) {
            let preset = if params.len() >= 3 && params[2].len() > 0 { decode_text(&params[2]) } else { None };
            self.push_control(ControlCommand::OpenExplainAi { preset });
        } else if two && bytes_equal(params[0].as_slice(), &w_dir) {
            let url = utf8_lossy(params[1].as_slice());
            match dir_from_url(url.as_str()) {
                Some(d) => {
                    self.grid.pwd = d;
                    assert(self.grid@ =~= osc_spec(g0, p));
                },
                None => {},
            }
        } else if params.len() >= 3 && bytes_equal(params[0].as_slice(), &w_link) {
            let uri = utf8_lossy(params[2].as_slice());
            if uri.as_str().unicode_len() == 0 {
                self.grid.current_uri = None;
            } else {
                let id = self.grid.next_link_id;
                self.grid.current_uri = Some(Hyperlink { id, uri });
                self.grid.next_link_id = id.wrapping_add(1);
            }
            assert(self.grid@ =~= osc_spec(g0, p));
        } else if params.len() >= 3 && bytes_equal(params[0].as_slice(), &w_clip) {
            if bytes_equal(params[2].as_slice(), &w_query) {
                self.push_control(ControlCommand::RequestClipboard);
            } else if params[2].len() > 0 {
                match decode_text(&params[2]) {
                    Some(text) => self.push_control(ControlCommand::SetClipboard(text)),
                    None => {},
                }
            }
        }
        assert(self.grid@ == osc_spec(g0, p));
    }
}

} // verus!
