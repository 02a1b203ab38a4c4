//! The AI assistant: the prompts sent to a model, the context taken from the screen, and
//! reading its markdown answer.
use vstd::prelude::*;
use crate::ext::push_str;
use crate::grid::{cells_view, Cell, CellView, Grid};
use crate::text::{
    append_chars, chars_of, chars_views, first_index, join_chars, join_with, lines_of, next_line, push_chars,
    replace_all, replace_all_chars, string_of_chars, trim, trim_bounds, trim_end,
};
use crate::url::{joined_cells_text, joined_text};

verus! {

/// The model provider.
#[derive(Clone, Copy, Debug, PartialEq, Eq, Structural)]
pub enum AiProvider {
    Anthropic,
    OpenAi,
}

/// A question for the assistant with its terminal context.
pub struct AiQuery {
    pub question: String,
    pub context: String,
    pub provider: AiProvider,
    pub model: String,
    pub api_key: String,
    pub base_url: Option<String>,
    pub shell: String,
    pub os: String,
}

pub open spec fn system_prompt_head() -> Seq<char> {
    "You are a helpful terminal assistant. OS: "@
}

pub open spec fn system_prompt_mid() -> Seq<char> {
    ". Shell: "@
}

pub open spec fn system_prompt_tail() -> Seq<char> {
    ".\nBe concise and actionable. Use markdown formatting.\nFor ALL commands or code, use fenced code blocks with a language tag:\n```bash\ncommand here\n```\nUse bash/sh for shell commands, python for Python, etc. Never include commands outside of code blocks."@
}

/// The system prompt: the assistant's role with the user's OS and shell, and how to
/// format commands.
pub open spec fn system_prompt(os: Seq<char>, shell: Seq<char>) -> Seq<char> {
    system_prompt_head() + os + system_prompt_mid() + shell + system_prompt_tail()
}

pub fn build_system_prompt(os: &str, shell: &str) -> (s: String)
    ensures
        s@ == system_prompt(os@, shell@),
{
    let mut s = String::new();
    push_str(&mut s, "You are a helpful terminal assistant. OS: ");
    push_str(&mut s, os);
    push_str(&mut s, ". Shell: ");
    push_str(&mut s, shell);
    push_str(&mut s, ".\nBe concise and actionable. Use markdown formatting.\nFor ALL commands or code, use fenced code blocks with a language tag:\n```bash\ncommand here\n```\nUse bash/sh for shell commands, python for Python, etc. Never include commands outside of code blocks.");
    s
}

/// The user message: the question alone, or the context and the question.
pub open spec fn user_message(context: Seq<char>, question: Seq<char>) -> Seq<char> {
    if context.len() == 0 {
        question
    } else {
        "Context:\n"@ + context + "\n\nQuestion: "@ + question
    }
}

pub fn build_user_message(context: &str, question: &str) -> (s: String)
    ensures
        s@ == user_message(context@, question@),
{
    if context.unicode_len() == 0 {
        question.to_string()
    } else {
        let mut s = String::new();
        push_str(&mut s, "Context:\n");
        push_str(&mut s, context);
        push_str(&mut s, "\n\nQuestion: ");
        push_str(&mut s, question);
        s
    }
}

/// Why a query cannot be sent: no API key.
pub open spec fn missing_key_message() -> Seq<char> {
    "No API key configured. Add one in Settings → AI."@
}

/// The error to report instead of sending a query, if any.
pub fn query_error(q: &AiQuery) -> (r: Option<String>)
    ensures
        match r {
            Some(m) => q.api_key@.len() == 0 && m@ == missing_key_message(),
            None => q.api_key@.len() > 0,
        },
{
    if q.api_key.as_str().unicode_len() == 0 {
        Some("No API key configured. Add one in Settings → AI.".to_string())
    } else {
        None
    }
}

/// The base URL for an OpenAI-compatible service: the configured one or the official
/// one, ending with `/`.
pub open spec fn openai_base(base: Option<Seq<char>>) -> Seq<char> {
    let b = match base { Some(b) => b, None => "https://api.openai.com/v1/"@ };
    if b.len() > 0 && b.last() == '/' { b } else { b.push('/') }
}

pub fn openai_base_url(base: &Option<String>) -> (s: String)
    ensures
        s@ == openai_base(match base { Some(b) => Some(b@), None => None }),
{
    let mut b = match base {
        Some(b) => b.clone(),
        None => "https://api.openai.com/v1/".to_string(),
    };
    let n = b.as_str().unicode_len();
    if n == 0 || b.as_str().get_char(n - 1) != '/' {
        crate::ext::push_char(&mut b, '/');
    }
    b
}

/// The base URL for Anthropic: the configured one or the official one.
pub open spec fn anthropic_base(base: Option<Seq<char>>) -> Seq<char> {
    match base { Some(b) => b, None => "https://api.anthropic.com"@ }
}

pub fn anthropic_base_url(base: &Option<String>) -> (s: String)
    ensures
        s@ == anthropic_base(match base { Some(b) => Some(b@), None => None }),
{
    match base {
        Some(b) => b.clone(),
        None => "https://api.anthropic.com".to_string(),
    }
}


pub open spec fn trimmed_lines(s: Seq<char>) -> Seq<Seq<char>> {
    lines_of(s).map_values(|l: Seq<char>| trim(l))
}

/// Markdown reduced to plain text for a notification: emphasis markers and backticks
/// removed, lines trimmed and joined with spaces, double spaces collapsed once, the
/// whole trimmed.
pub open spec fn markdown_plain(text: Seq<char>) -> Seq<char> {
    let e = Seq::<char>::empty();
    let a = replace_all(replace_all(replace_all(replace_all(text, seq!['*', '*'], e), seq!['_', '_'], e), seq!['`', '`', '`'], e), seq!['`'], e);
    trim(replace_all(join_with(trimmed_lines(a), seq![' ']), seq![' ', ' '], seq![' ']))
}

/// The trimmed lines of `v`.
pub fn trimmed_lines_of(v: &[char]) -> (out: Vec<Vec<char>>)
    ensures
        chars_views(out@) == trimmed_lines(v@),
{
    let n = v.len();
    let mut out: Vec<Vec<char>> = Vec::new();
    let mut start: usize = 0;
    assert(v@.subrange(0, n as int) =~= v@);
    while start < n
        invariant
            start <= n,
            n == v@.len(),
            chars_views(out@) + trimmed_lines(v@.subrange(start as int, n as int)) == trimmed_lines(v@),
        decreases n - start,
    {
        let (end, next) = next_line(v, start);
        let (a, b) = trim_bounds(v, start, end);
        let line = crate::text::chars_range(v, a, b);
        let ghost before = chars_views(out@);
        out.push(line);
        proof {
            let rest = lines_of(v@.subrange(next as int, n as int));
            assert(chars_views(out@) =~= before.push(trim(v@.subrange(start as int, end as int))));
            assert((seq![v@.subrange(start as int, end as int)] + rest).map_values(|l: Seq<char>| trim(l))
                =~= seq![trim(v@.subrange(start as int, end as int))] + rest.map_values(|l: Seq<char>| trim(l)));
            assert(chars_views(out@) + trimmed_lines(v@.subrange(next as int, n as int))
                =~= before + trimmed_lines(v@.subrange(start as int, n as int)));
        }
        start = next;
    }
    assert(v@.subrange(n as int, n as int) =~= Seq::<char>::empty());
    assert(chars_views(out@) + Seq::<Seq<char>>::empty() =~= chars_views(out@));
    out
}

/// Plain text from markdown (see [`markdown_plain`]).
pub fn strip_markdown(text: &str) -> (s: String)
    ensures
        s@ == markdown_plain(text@),
{
    let v = chars_of(text);
    let none: [char; 0] = [];
    let p1 = ['*', '*'];
    let p2 = ['_', '_'];
    let p3 = ['`', '`', '`'];
    let p4 = ['`'];
    let sp = [' '];
    let dsp = [' ', ' '];
    assert(none@ =~= Seq::<char>::empty());
    assert(p1@ =~= seq!['*', '*']);
    assert(p2@ =~= seq!['_', '_']);
    assert(p3@ =~= seq!['`', '`', '`']);
    assert(p4@ =~= seq!['`']);
    assert(sp@ =~= seq![' ']);
    assert(dsp@ =~= seq![' ', ' ']);
    let a1 = replace_all_chars(v.as_slice(), &p1, &none);
    let a2 = replace_all_chars(a1.as_slice(), &p2, &none);
    let a3 = replace_all_chars(a2.as_slice(), &p3, &none);
    let a4 = replace_all_chars(a3.as_slice(), &p4, &none);
    let lines = trimmed_lines_of(a4.as_slice());
    let joined = join_chars(&lines, &sp);
    let collapsed = replace_all_chars(joined.as_slice(), &dsp, &sp);
    let n = collapsed.len();
    let (a, b) = trim_bounds(collapsed.as_slice(), 0, n);
    assert(collapsed@.subrange(0, n as int) =~= collapsed@);
    string_of_chars(collapsed.as_slice(), a, b)
}

/// A piece of an answer: text, or a fenced code block with its language tag.
#[derive(Debug, PartialEq)]
pub enum Segment {
    Text(String),
    Code { lang: String, content: String },
}

pub ghost enum SegmentView {
    Text(Seq<char>),
    Code { lang: Seq<char>, content: Seq<char> },
}

impl View for Segment {
    type V = SegmentView;

    open spec fn view(&self) -> SegmentView {
        match self {
            Segment::Text(t) => SegmentView::Text(t@),
            Segment::Code { lang, content } => SegmentView::Code { lang: lang@, content: content@ },
        }
    }
}

pub open spec fn fence_at(s: Seq<char>, i: int) -> bool {
    0 <= i && i + 3 <= s.len() && s[i] == '`' && s[i + 1] == '`' && s[i + 2] == '`'
}

/// The first position of a code fence (three backticks).
pub open spec fn first_fence(s: Seq<char>) -> Option<nat>
    decreases s.len(),
{
    if s.len() < 3 {
        None
    } else if fence_at(s, 0) {
        Some(0)
    } else {
        match first_fence(s.drop_first()) {
            Some(i) => Some(i + 1),
            None => None,
        }
    }
}

proof fn lemma_first_fence(s: Seq<char>, i: int)
    requires
        0 <= i,
        forall|k: int| 0 <= k < i ==> !fence_at(s, k),
        fence_at(s, i) || i + 3 > s.len(),
    ensures
        first_fence(s) == (if fence_at(s, i) { Some(i as nat) } else { None::<nat> }),
    decreases i,
{
    if i > 0 && s.len() >= 3 {
        assert forall|k: int| 0 <= k < i - 1 implies !fence_at(s.drop_first(), k) by {
            assert(!fence_at(s, k + 1));
        }
        assert(fence_at(s.drop_first(), i - 1) == fence_at(s, i));
        lemma_first_fence(s.drop_first(), i - 1);
    }
}

/// A string without its trailing line breaks.
pub open spec fn trim_end_newlines(s: Seq<char>) -> Seq<char>
    decreases s.len(),
{
    if s.len() > 0 && s.last() == '\n' { trim_end_newlines(s.drop_last()) } else { s }
}

pub open spec fn text_segment(t: Seq<char>) -> Seq<SegmentView> {
    if trim(t).len() > 0 { seq![SegmentView::Text(trim(t))] } else { Seq::empty() }
}

pub open spec fn code_segment(lang: Seq<char>, body: Seq<char>) -> Seq<SegmentView> {
    let content = trim_end_newlines(body);
    if trim(content).len() > 0 { seq![SegmentView::Code { lang, content }] } else { Seq::empty() }
}

/// After an opening fence: the language tag (the rest of its line, trimmed) and the
/// text after that line.
pub open spec fn block_head(r1: Seq<char>) -> (Seq<char>, Seq<char>) {
    let le: int = match first_index(r1, '\n') { Some(i) => i as int, None => r1.len() as int };
    (trim(r1.take(le)), if le < r1.len() { r1.skip(le + 1) } else { Seq::empty() })
}

/// After a closing fence: the text, without the line break that ends the fence.
pub open spec fn after_fence(r3: Seq<char>) -> Seq<char> {
    if r3.len() > 0 && r3[0] == '\n' { r3.skip(1) } else { r3 }
}

/// The segments of an answer: text between code fences (trimmed, empty text dropped),
/// and code blocks whose first line is the language tag; an unclosed block runs to the
/// end. Blocks with only whitespace are dropped.
pub open spec fn segments_from(r: Seq<char>) -> Seq<SegmentView>
    decreases r.len(),
{
    if r.len() == 0 {
        Seq::empty()
    } else {
        match first_fence(r) {
            None => text_segment(r),
            Some(pos) => {
                if pos == 0 {
                    let (lang, r2) = block_head(r.skip(3));
                    match first_fence(r2) {
                        Some(e) => {
                            let r4 = after_fence(r2.skip(e + 3int));
                            if r4.len() < r.len() {
                                code_segment(lang, r2.take(e as int)) + segments_from(r4)
                            } else {
                                Seq::empty()
                            }
                        },
                        None => code_segment(lang, r2),
                    }
                } else if pos < r.len() {
                    text_segment(r.take(pos as int)) + segments_from(r.skip(pos as int))
                } else {
                    Seq::empty()
                }
            },
        }
    }
}

fn find_fence_from(v: &[char], start: usize) -> (r: Option<usize>)
    requires
        start <= v@.len(),
    ensures
        match r {
            Some(i) => start <= i && i + 3 <= v@.len() && first_fence(v@.skip(start as int)) == Some((i - start) as nat),
            None => first_fence(v@.skip(start as int)) is None,
        },
{
    let n = v.len();
    let mut i = start;
    let ghost s = v@.skip(start as int);
    while n >= 3 && i <= n - 3
        invariant
            start <= i <= n,
            n == v@.len(),
            s == v@.skip(start as int),
            forall|k: int| 0 <= k < i - start ==> !fence_at(s, k),
        decreases n - i,
    {
        if v[i] == '`' && v[i + 1] == '`' && v[i + 2] == '`' {
            assert(fence_at(s, i - start));
            proof {
                lemma_first_fence(s, i - start);
            }
            return Some(i);
        }
        assert(!fence_at(s, i - start));
        i = i + 1;
    }
    proof {
        lemma_first_fence(s, i - start);
    }
    None
}

fn trim_end_newlines_at(v: &[char], from: usize, to: usize) -> (e: usize)
    requires
        from <= to <= v@.len(),
    ensures
        from <= e <= to,
        v@.subrange(from as int, e as int) == trim_end_newlines(v@.subrange(from as int, to as int)),
{
    let mut e = to;
    while e > from && v[e - 1] == '\n'
        invariant
            from <= e <= to <= v@.len(),
            trim_end_newlines(v@.subrange(from as int, e as int)) == trim_end_newlines(v@.subrange(from as int, to as int)),
        decreases e,
    {
        assert(v@.subrange(from as int, e as int).drop_last() =~= v@.subrange(from as int, e - 1));
        e = e - 1;
    }
    e
}

fn push_text(out: &mut Vec<Segment>, v: &[char], from: usize, to: usize)
    requires
        from <= to <= v@.len(),
    ensures
        seg_views(final(out)@) == seg_views(old(out)@) + text_segment(v@.subrange(from as int, to as int)),
{
    let (a, b) = trim_bounds(v, from, to);
    let ghost before = seg_views(out@);
    if b > a {
        out.push(Segment::Text(string_of_chars(v, a, b)));
        assert(seg_views(out@) =~= before + text_segment(v@.subrange(from as int, to as int)));
    } else {
        assert(before + text_segment(v@.subrange(from as int, to as int)) =~= before);
    }
}

fn push_code(out: &mut Vec<Segment>, v: &[char], lang: String, from: usize, to: usize)
    requires
        from <= to <= v@.len(),
    ensures
        seg_views(final(out)@) == seg_views(old(out)@) + code_segment(lang@, v@.subrange(from as int, to as int)),
{
    let e = trim_end_newlines_at(v, from, to);
    let (a, b) = trim_bounds(v, from, e);
    let ghost before = seg_views(out@);
    if b > a {
        out.push(Segment::Code { lang, content: string_of_chars(v, from, e) });
        assert(seg_views(out@) =~= before + code_segment(lang@, v@.subrange(from as int, to as int)));
    } else {
        assert(before + code_segment(lang@, v@.subrange(from as int, to as int)) =~= before);
    }
}

pub open spec fn seg_views(v: Seq<Segment>) -> Seq<SegmentView> {
    v.map_values(|x: Segment| x@)
}

fn block_head_exec(v: &[char], s1: usize) -> (r: (String, usize))
    requires
        s1 <= v@.len(),
    ensures
        s1 <= r.1 <= v@.len(),
        (r.0@, v@.skip(r.1 as int)) == block_head(v@.skip(s1 as int)),
{
    let n = v.len();
    let ghost r1 = v@.skip(s1 as int);
    let le = match crate::text::find_char_from(v, s1, '\n') {
        Some(q) => q,
        None => n,
    };
    let (la, lb) = trim_bounds(v, s1, le);
    let lang = string_of_chars(v, la, lb);
    assert(r1.take(le - s1) =~= v@.subrange(s1 as int, le as int));
    let s2 = if le < n { le + 1 } else { n };
    assert((if le - s1 < r1.len() { r1.skip(le - s1 + 1) } else { Seq::<char>::empty() }) =~= v@.skip(s2 as int));
    (lang, s2)
}

/// Handle the code block opening at `i`: gives where parsing goes on, or `None` when the
/// block runs to the end.
fn code_block(out: &mut Vec<Segment>, v: &[char], i: usize) -> (next: Option<usize>)
    requires
        first_fence(v@.skip(i as int)) == Some(0nat),
        i + 3 <= v@.len(),
    ensures
        match next {
            Some(j) => i < j <= v@.len() && seg_views(final(out)@) + segments_from(v@.skip(j as int)) == seg_views(old(out)@) + segments_from(v@.skip(i as int)),
            None => seg_views(final(out)@) == seg_views(old(out)@) + segments_from(v@.skip(i as int)),
        },
{
    let n = v.len();
    let ghost r = v@.skip(i as int);
    let ghost before = seg_views(out@);
    assert(r.skip(3) =~= v@.skip(i + 3));
    let (lang, s2) = block_head_exec(v, i + 3);
    let ghost r2 = v@.skip(s2 as int);
    match find_fence_from(v, s2) {
        Some(e) => {
            assert(r2.take(e - s2) =~= v@.subrange(s2 as int, e as int));
            push_code(out, v, lang, s2, e);
            let s3 = e + 3;
            let s4 = if s3 < n && v[s3] == '\n' { s3 + 1 } else { s3 };
            assert(r2.skip(e - s2 + 3) =~= v@.skip(s3 as int));
            assert(after_fence(v@.skip(s3 as int)) =~= v@.skip(s4 as int));
            Some(s4)
        },
        None => {
            assert(r2 =~= v@.subrange(s2 as int, n as int));
            push_code(out, v, lang, s2, n);
            None
        },
    }
}

/// Split an answer into text and code blocks (see [`segments_from`]).
pub fn parse_segments(response: &str) -> (out: Vec<Segment>)
    ensures
        seg_views(out@) == segments_from(response@),
{
    let v = chars_of(response);
    let n = v.len();
    let mut out: Vec<Segment> = Vec::new();
    let mut i: usize = 0;
    assert(v@.skip(0) =~= v@);
    loop
        invariant_except_break
            seg_views(out@) + segments_from(v@.skip(i as int)) == segments_from(v@),
        invariant
            i <= n,
            n == v@.len(),
        ensures
            seg_views(out@) == segments_from(v@),
        decreases n - i,
    {
        let ghost r = v@.skip(i as int);
        let ghost before = seg_views(out@);
        if i == n {
            assert(r.len() == 0);
            assert(before + Seq::<SegmentView>::empty() =~= before);
            break;
        }
        match find_fence_from(v.as_slice(), i) {
            None => {
                push_text(&mut out, v.as_slice(), i, n);
                assert(v@.subrange(i as int, n as int) =~= r);
                break;
            },
            Some(p) => {
                if p == i {
                    match code_block(&mut out, v.as_slice(), i) {
                        Some(j) => {
                            i = j;
                        },
                        None => {
                            break;
                        },
                    }
                } else {
                    assert(r.take(p - i) =~= v@.subrange(i as int, p as int));
                    assert(r.skip(p - i) =~= v@.skip(p as int));
                    push_text(&mut out, v.as_slice(), i, p);
                    assert(seg_views(out@) + segments_from(v@.skip(p as int)) =~= before + segments_from(r));
                    i = p;
                }
            },
        }
    }
    out
}


/// Whether a row shows the prompt marker `λ` in one of its cells.
pub open spec fn has_prompt(row: Seq<CellView>) -> bool {
    exists|i: int| 0 <= i < row.len() && #[trigger] row[i].text == seq!['λ']
}

/// The last of the first `k` rows that shows the prompt marker.
pub open spec fn last_prompt_row(screen: Seq<Seq<CellView>>, k: nat) -> Option<nat>
    decreases k,
{
    if k == 0 {
        None
    } else if has_prompt(screen[k - 1]) {
        Some((k - 1) as nat)
    } else {
        last_prompt_row(screen, (k - 1) as nat)
    }
}

/// The rows as text without trailing whitespace, empty ones left out.
pub open spec fn output_lines(rows: Seq<Seq<CellView>>) -> Seq<Seq<char>>
    decreases rows.len(),
{
    if rows.len() == 0 {
        Seq::empty()
    } else {
        let t = trim_end(joined_text(rows[0], 0, rows[0].len() as int));
        if t.len() > 0 { seq![t] + output_lines(rows.drop_first()) } else { output_lines(rows.drop_first()) }
    }
}

/// The output of the last command: the non-empty rows below the last prompt, joined
/// with line breaks; empty when no prompt is on the screen.
pub open spec fn last_output(screen: Seq<Seq<CellView>>) -> Seq<char> {
    match last_prompt_row(screen, screen.len()) {
        None => Seq::empty(),
        Some(p) => join_with(output_lines(screen.skip(p + 1int)), seq!['\n']),
    }
}

fn row_has_prompt(cells: &[Cell]) -> (r: bool)
    ensures
        r == has_prompt(cells_view(cells@)),
{
    let ghost cv = cells_view(cells@);
    let mut i: usize = 0;
    while i < cells.len()
        invariant
            i <= cells@.len(),
            cv == cells_view(cells@),
            forall|k: int| 0 <= k < i ==> cv[k].text != seq!['λ'],
        decreases cells@.len() - i,
    {
        let t = cells[i].c.as_str();
        if t.unicode_len() == 1 && t.get_char(0) == 'λ' {
            assert(cv[i as int].text =~= seq!['λ']);
            return true;
        }
        assert(cv[i as int].text != seq!['λ']) by {
            if cv[i as int].text.len() == 1 {
                assert(cv[i as int].text[0] != 'λ');
            }
        }
        i = i + 1;
    }
    false
}

/// The output of the last command on the screen (see [`last_output`]).
pub fn extract_last_output(grid: &Grid) -> (s: String)
    requires
        grid.wf(),
    ensures
        s@ == last_output(grid@.screen),
{
    let ghost sc = grid@.screen;
    let rows = grid.rows;
    let mut k = rows;
    let prompt: Option<usize>;
    loop
        invariant
            k <= rows,
            rows == sc.len(),
            grid.wf(),
            sc == grid@.screen,
            last_prompt_row(sc, k as nat) == last_prompt_row(sc, rows as nat),
        ensures
            match prompt { Some(p) => p < rows && last_prompt_row(sc, rows as nat) == Some(p as nat), None => last_prompt_row(sc, rows as nat) is None },
        decreases k,
    {
        if k == 0 {
            prompt = None;
            break;
        }
        if row_has_prompt(grid.row(k - 1)) {
            prompt = Some(k - 1);
            break;
        }
        k = k - 1;
    }
    let start = match prompt {
        Some(p) => p + 1,
        None => return String::new(),
    };
    let mut lines: Vec<Vec<char>> = Vec::new();
    let mut r = start;
    assert(sc.skip(start as int) =~= sc.subrange(start as int, rows as int));
    while r < rows
        invariant
            start <= r <= rows,
            rows == sc.len(),
            grid.wf(),
            sc == grid@.screen,
            chars_views(lines@) + output_lines(sc.subrange(r as int, rows as int)) == output_lines(sc.skip(start as int)),
        decreases rows - r,
    {
        let cells = grid.row(r);
        let text = joined_cells_text(cells, 0, cells.len());
        let v = chars_of(text.as_str());
        let m = v.len();
        let e = crate::text::trimmed_end(v.as_slice(), m);
        assert(v@.subrange(0, m as int) =~= v@);
        let ghost before = chars_views(lines@);
        let ghost tail = sc.subrange(r as int, rows as int);
        assert(tail[0] == sc[r as int]);
        assert(tail.drop_first() =~= sc.subrange(r + 1, rows as int));
        if e > 0 {
            lines.push(crate::text::chars_range(v.as_slice(), 0, e));
            assert(chars_views(lines@) =~= before.push(v@.subrange(0, e as int)));
        }
        assert(chars_views(lines@) + output_lines(sc.subrange(r + 1, rows as int)) =~= before + output_lines(tail));
        r = r + 1;
    }
    assert(sc.subrange(rows as int, rows as int) =~= Seq::<Seq<CellView>>::empty());
    assert(chars_views(lines@) + Seq::<Seq<char>>::empty() =~= chars_views(lines@));
    let nl = ['\n'];
    assert(nl@ =~= seq!['\n']);
    let joined = join_chars(&lines, &nl);
    let n = joined.len();
    string_of_chars(joined.as_slice(), 0, n)
}

/// A signed number in decimal.
pub open spec fn signed_text(n: int) -> Seq<char> {
    if n < 0 { seq!['-'] + crate::text::decimal_chars((-n) as nat) } else { crate::text::decimal_chars(n as nat) }
}

pub open spec fn diagnostic_head() -> Seq<char> {
    "The last command exited with code "@
}

pub open spec fn diagnostic_mid() -> Seq<char> {
    ". Output:\n"@
}

pub open spec fn diagnostic_tail() -> Seq<char> {
    "\n\nRespond in EXACTLY this JSON format (no markdown, no code fences): {\"message\": \"short explanation\", \"command_to_solve\": \"command to fix it\" or null}"@
}

/// The question asked about a failed command: its exit status and the output it left,
/// with the form the answer must take.
pub open spec fn diagnostic_question_spec(code: i32, context: Seq<char>) -> Seq<char> {
    diagnostic_head() + signed_text(code as int) + diagnostic_mid() + context + diagnostic_tail()
}

/// The question for the diagnosis banner (see [`diagnostic_question_spec`]).
pub fn diagnostic_question(code: i32, context: &str) -> (s: String)
    ensures
        s@ == diagnostic_question_spec(code, context@),
{
    let mut s = String::new();
    push_str(&mut s, "The last command exited with code ");
    if code < 0 {
        crate::ext::push_char(&mut s, '-');
        let m: i64 = 0 - (code as i64);
        crate::status::push_decimal_chars(&mut s, m as usize);
    } else {
        crate::status::push_decimal_chars(&mut s, code as usize);
    }
    push_str(&mut s, ". Output:\n");
    push_str(&mut s, context);
    push_str(&mut s, "\n\nRespond in EXACTLY this JSON format (no markdown, no code fences): {\"message\": \"short explanation\", \"command_to_solve\": \"command to fix it\" or null}");
    s
}


pub open spec fn opt_chars(o: Option<String>) -> Option<Seq<char>> {
    match o {
        Some(t) => Some(t@),
        None => None,
    }
}

/// The diagnosis banner after the assistant answered about a failed command with exit
/// status `code`. `fields` holds the `message` and `command_to_solve` strings of the
/// reply where it reads as JSON. The banner shows the message (the whole reply where it
/// has none, or does not read as JSON) and the command to fix the failure, if any; a
/// failed query shows `AI error: ` and the error.
pub open spec fn diagnostic_banner_spec(code: i32, reply: Result<Seq<char>, Seq<char>>, fields: Option<(Option<Seq<char>>, Option<Seq<char>>)>) -> (i32, Seq<char>, Option<Seq<char>>) {
    match reply {
        Ok(text) => match fields {
            Some((message, command)) => (code, match message { Some(m) => m, None => text }, command),
            None => (code, text, None),
        },
        Err(e) => (code, "AI error: "@ + e, None),
    }
}

/// The diagnosis banner for a reply (see [`diagnostic_banner_spec`]).
pub fn diagnostic_banner(code: i32, reply: Result<String, String>, fields: Option<(Option<String>, Option<String>)>) -> (r: (i32, String, Option<String>))
    ensures
        (r.0, r.1@, opt_chars(r.2)) == diagnostic_banner_spec(
            code,
            match reply { Ok(t) => Ok(t@), Err(e) => Err(e@) },
            match fields { Some((m, c)) => Some((opt_chars(m), opt_chars(c))), None => None },
        ),
{
    match reply {
        Ok(text) => match fields {
            Some((message, command)) => match message {
                Some(m) => (code, m, command),
                None => (code, text, command),
            },
            None => (code, text, None),
        },
        Err(e) => {
            let mut s = String::new();
            push_str(&mut s, "AI error: ");
            proof {
                reveal_strlit("AI error: ");
            }
            push_str(&mut s, e.as_str());
            (code, s, None)
        },
    }
}

} // verus!
